//! What the tracker answers to one datagram.
use vstd::prelude::*;

use crate::addr::IpAddress;
use crate::announce::AnnounceParams;
use crate::error::Error;
use crate::swarm::{candidates, is_drawn_from, Peer};
use crate::tracker::{
    announce_error, announced, counts_only, effective_ip, is_seeding, known_peer, params_view,
    scrape_counts, swarm_of, wanted, ExtensionParams, Tracker, TrackerExtension,
};
use crate::udp::connection::{connection_id, spec_connection_id, spec_verify, spec_window, verify_connection_id};
use crate::udp::extensions::{parse_extensions, spec_parse_extensions};
use crate::udp::wire::{
    encode_connect_response, encode_error_response, encode_scrape_response, fits_family, scrape_count,
    scrape_hashes, spec_announce_response, spec_connect_response, spec_error_response,
    spec_event_of_code, spec_scrape_response, spec_wire_count, u16_at, u32_at, u64_at, wire_count,
    AnnouncePacket, AnnounceReply, ACTION_ANNOUNCE, ACTION_CONNECT, ACTION_SCRAPE, MIN_ANNOUNCE_SIZE,
    MIN_CONNECT_SIZE, MIN_SCRAPE_SIZE, PROTOCOL_ID, MAX_ERROR_LEN,
};

verus! {

/// The largest datagram that the tracker reads.
pub const MAX_PACKET_SIZE: usize = 8192;

/// The announce that the fixed fields of the announce request `b` stand
/// for, received from `remote` at `now`. A declared address of all zeros
/// means none; the UDP protocol always carries a key.
pub open spec fn udp_announce_params(b: Seq<u8>, remote: IpAddress, now: u64, a: AnnounceParams) -> bool {
    &&& a.info_hash@ == b.subrange(16, 36)
    &&& a.peer_id@ == b.subrange(36, 56)
    &&& a.downloaded == u64_at(b, 56) as i64
    &&& a.left == u64_at(b, 64) as i64
    &&& a.uploaded == u64_at(b, 72) as i64
    &&& a.event == spec_event_of_code(u32_at(b, 80))
    &&& (if b.subrange(84, 88) == seq![0u8, 0, 0, 0] {
        a.unsafe_ip is None
    } else {
        a.unsafe_ip is Some && a.unsafe_ip.unwrap() is V4 && a.unsafe_ip.unwrap()->V4_0@ == b.subrange(84, 88)
    })
    &&& a.key == Some(u32_at(b, 88))
    &&& a.num_want == u32_at(b, 92) as i32
    &&& a.port == u16_at(b, 96)
    &&& a.remote_ip == remote
    &&& a.time == now
}

/// The error reply to the request `transaction_id`: the message of `e`, cut
/// to `MAX_ERROR_LEN` bytes.
pub open spec fn spec_error_reply(transaction_id: u32, e: Error) -> Seq<u8> {
    let m = e.spec_message_bytes();
    spec_error_response(
        transaction_id,
        if m.len() > MAX_ERROR_LEN {
            m.subrange(0, MAX_ERROR_LEN as int)
        } else {
            m
        },
    )
}

pub fn error_reply(transaction_id: u32, e: &Error) -> (r: Vec<u8>)
    ensures
        r@ == spec_error_reply(transaction_id, *e),
{
    let m = e.message_bytes();
    if m.len() > MAX_ERROR_LEN {
        let (head, _) = m.split_at(MAX_ERROR_LEN);
        encode_error_response(transaction_id, head)
    } else {
        encode_error_response(transaction_id, m)
    }
}

/// The announce that the announce request `p` stands for.
pub fn announce_params_from(p: &AnnouncePacket, remote: &IpAddress, now: u64) -> (r: AnnounceParams)
    requires
        p.wf(),
    ensures
        udp_announce_params(p.bytes(), *remote, now, r),
{
    let ip = p.ip();
    let unsafe_ip = if ip[0] == 0 && ip[1] == 0 && ip[2] == 0 && ip[3] == 0 {
        assert(p.bytes().subrange(84, 88) =~= seq![0u8, 0, 0, 0]);
        None
    } else {
        assert(p.bytes().subrange(84, 88) != seq![0u8, 0, 0, 0]) by {
            if p.bytes().subrange(84, 88) == seq![0u8, 0, 0, 0] {
                assert(ip@[0] == 0 && ip@[1] == 0 && ip@[2] == 0 && ip@[3] == 0);
            }
        };
        Some(IpAddress::V4(ip))
    };
    AnnounceParams {
        info_hash: p.info_hash(),
        peer_id: p.peer_id(),
        port: p.port(),
        remote_ip: *remote,
        unsafe_ip,
        uploaded: p.uploaded(),
        downloaded: p.downloaded(),
        left: p.left(),
        event: p.event(),
        num_want: p.num_want(),
        key: Some(p.key()),
        time: now,
    }
}

/// Whether the reply `r` answers the announce `a` as the tracker decides:
/// an error reply with the tracker unchanged, or an announce reply with the
/// counts from before the announce and peers drawn from the candidates.
pub open spec fn announce_outcome<E: TrackerExtension>(
    old_t: Tracker<E>,
    new_t: Tracker<E>,
    a: AnnounceParams,
    ext: Seq<(Seq<u8>, Seq<u8>)>,
    transaction_id: u32,
    r: Seq<u8>,
) -> bool {
    let c = old_t.config();
    let t = old_t.torrents();
    let s = swarm_of(t, a.info_hash@);
    let ip = effective_ip(c, a);
    let ext_result = old_t.extension().spec_validate(a, ext, known_peer(s, a));
    match announce_error(c, t, a, ext_result) {
        Some(e) => r == spec_error_reply(transaction_id, e) && new_t.torrents() == t,
        None => {
            let cand = candidates(s.peers, a.peer_id@, ip.spec_is_v4(), is_seeding(a));
            &&& new_t.torrents() == announced(t, a, ip)
            &&& exists|peers: Seq<(IpAddress, u16)>|
                #![trigger is_drawn_from(peers, cand)]
                is_drawn_from(peers, cand) && peers.len() == (if counts_only(c, s, a) {
                    0
                } else if wanted(c, a.num_want) < cand.len() {
                    wanted(c, a.num_want)
                } else {
                    cand.len() as int
                }) && r == spec_announce_response(
                    transaction_id,
                    c.interval,
                    spec_wire_count(crate::swarm::count_leechers(s.peers) as u64),
                    spec_wire_count(crate::swarm::count_seeders(s.peers) as u64),
                    !a.remote_ip.spec_is_v4(),
                    peers,
                )
        },
    }
}

/// Every endpoint drawn for an IPv4 requester is an IPv4 endpoint.
proof fn lemma_drawn_family(
    s: Seq<Peer>,
    id: Seq<u8>,
    seeding: bool,
    v4: bool,
    peers: Seq<(IpAddress, u16)>,
)
    requires
        is_drawn_from(peers, candidates(s, id, v4, seeding)),
    ensures
        fits_family(peers, !v4),
{
    let c = candidates(s, id, v4, seeding);
    let ix = choose|ix: Seq<usize>| crate::swarm::drawn_by(peers, c, ix);
    assert forall|k: int| 0 <= k < peers.len() implies !v4 || (#[trigger] peers[k]).0 is V4 by {
        assert(ix[k] < c.len() && peers[k] == c[ix[k] as int]);
        crate::swarm::lemma_candidates_sound(s, id, v4, seeding, ix[k] as int);
        let j = choose|j: int|
            0 <= j < s.len() && crate::swarm::eligible(s[j], id, v4, seeding) && #[trigger] candidates(
                s,
                id,
                v4,
                seeding,
            )[ix[k] as int] == crate::swarm::peer_address(s[j], v4);
        assert(c[ix[k] as int] == crate::swarm::peer_address(s[j], v4));
    }
}

/// Hands the announce `a` to the tracker and builds the reply. The UDP
/// protocol declares IPv4 addresses only, so a declared address is IPv4.
pub fn announce_reply<E: TrackerExtension>(
    tracker: &mut Tracker<E>,
    a: &AnnounceParams,
    ext: &ExtensionParams,
    transaction_id: u32,
) -> (r: Vec<u8>)
    requires
        old(tracker).wf(),
        a.unsafe_ip is Some ==> a.unsafe_ip.unwrap() is V4,
    ensures
        final(tracker).wf(),
        final(tracker).config() == old(tracker).config(),
        final(tracker).extension() == old(tracker).extension(),
        announce_outcome(*old(tracker), *final(tracker), *a, params_view(*ext), transaction_id, r@),
{
    let ghost t = tracker.torrents();
    let ghost c = tracker.config();
    match tracker.announce(a, ext) {
        Err(e) => error_reply(transaction_id, &e),
        Ok((seeders, leechers, peers)) => {
            let ghost s = swarm_of(t, a.info_hash@);
            let ghost ip = effective_ip(c, *a);
            let ipv6 = !a.remote_ip.is_ipv4();
            proof {
                lemma_drawn_family(s.peers, a.peer_id@, is_seeding(*a), ip.spec_is_v4(), peers@);
                if ipv6 {
                    assert(fits_family(peers@, ipv6));
                } else {
                    assert(ip.spec_is_v4());
                }
            }
            let mut reply = AnnounceReply::new(transaction_id, ipv6);
            reply.set_interval(tracker.get_interval());
            reply.set_leechers(wire_count(leechers));
            reply.set_seeders(wire_count(seeders));
            reply.add_peers(peers.as_slice());
            let r = reply.to_bytes();
            assert(is_drawn_from(peers@, candidates(s.peers, a.peer_id@, ip.spec_is_v4(), is_seeding(*a))));
            r
        },
    }
}

/// The counts of a scrape reply for `h`, in wire order: seeders,
/// completions, leechers.
pub open spec fn scrape_entry(t: Seq<(Seq<u8>, crate::tracker::SwarmState)>, h: Seq<u8>) -> (i32, i32, i32) {
    let (s, l, c) = scrape_counts(t, h);
    (spec_wire_count(s), spec_wire_count(c), spec_wire_count(l))
}

/// The counts of a scrape reply to the request `b`.
pub open spec fn scrape_stats(t: Seq<(Seq<u8>, crate::tracker::SwarmState)>, b: Seq<u8>) -> Seq<(i32, i32, i32)> {
    Seq::new(
        scrape_count(b.len() as int) as nat,
        |k: int| scrape_entry(t, b.subrange(16 + 20 * k, 36 + 20 * k)),
    )
}

pub open spec fn reply_view(r: Option<Vec<u8>>) -> Option<Seq<u8>> {
    match r {
        Some(v) => Some(v@),
        None => None,
    }
}

/// Handles the datagram `packet` that came from `remote` at `now`: the reply
/// to send, if any. Datagrams that are too short or too long, of an unknown
/// action, or shorter than their action requires get none.
pub fn handle_packet<E: TrackerExtension>(
    tracker: &mut Tracker<E>,
    secret: &[u8; 8],
    remote: &IpAddress,
    packet: &[u8],
    now: u64,
) -> (r: Option<Vec<u8>>)
    requires
        old(tracker).wf(),
    ensures
        final(tracker).wf(),
        final(tracker).config() == old(tracker).config(),
        final(tracker).extension() == old(tracker).extension(),
        ({
            let b = packet@;
            let t = old(tracker).torrents();
            let action = u32_at(b, 8);
            let tid = u32_at(b, 12);
            if b.len() < MIN_CONNECT_SIZE || b.len() > MAX_PACKET_SIZE {
                r is None && final(tracker).torrents() == t
            } else if action == ACTION_CONNECT {
                final(tracker).torrents() == t && reply_view(r) == (if u64_at(b, 0) == PROTOCOL_ID {
                    Some(spec_connect_response(tid, spec_connection_id(secret@, spec_window(now), *remote)))
                } else {
                    None
                })
                    && (r is Some ==> r.unwrap()@.len() == 16)
            } else if action == ACTION_ANNOUNCE {
                if b.len() < MIN_ANNOUNCE_SIZE {
                    r is None && final(tracker).torrents() == t
                } else if !spec_verify(secret@, now, *remote, b.subrange(0, 8)) {
                    reply_view(r) == Some(spec_error_reply(tid, Error::AccessDenied))
                        && final(tracker).torrents() == t
                } else {
                    match spec_parse_extensions(b.subrange(MIN_ANNOUNCE_SIZE as int, b.len() as int)) {
                        Err(e) => reply_view(r) == Some(spec_error_reply(tid, e))
                            && final(tracker).torrents() == t,
                        Ok(ext) => r is Some && exists|a: AnnounceParams|
                            #![trigger udp_announce_params(b, *remote, now, a)]
                            udp_announce_params(b, *remote, now, a) && announce_outcome(
                                *old(tracker),
                                *final(tracker),
                                a,
                                ext,
                                tid,
                                r.unwrap()@,
                            ),
                    }
                }
            } else if action == ACTION_SCRAPE {
                final(tracker).torrents() == t && if b.len() < MIN_SCRAPE_SIZE {
                    r is None
                } else if !spec_verify(secret@, now, *remote, b.subrange(0, 8)) {
                    reply_view(r) == Some(spec_error_reply(tid, Error::AccessDenied))
                } else {
                    reply_view(r) == Some(spec_scrape_response(tid, scrape_stats(t, b)))
                }
            } else {
                r is None && final(tracker).torrents() == t
            }
        }),
{
    let n = packet.len();
    if n < MIN_CONNECT_SIZE || n > MAX_PACKET_SIZE {
        return None;
    }
    let action = crate::bytes::read_u32(packet, 8);
    let tid = crate::bytes::read_u32(packet, 12);
    if action == ACTION_CONNECT {
        if crate::bytes::read_u64(packet, 0) != PROTOCOL_ID {
            return None;
        }
        let id = connection_id(secret, now, remote);
        return Some(encode_connect_response(tid, &id));
    }
    if action != ACTION_ANNOUNCE && action != ACTION_SCRAPE {
        return None;
    }
    if action == ACTION_ANNOUNCE && n < MIN_ANNOUNCE_SIZE {
        return None;
    }
    if action == ACTION_SCRAPE && n < MIN_SCRAPE_SIZE {
        return None;
    }
    let id = [packet[0], packet[1], packet[2], packet[3], packet[4], packet[5], packet[6], packet[7]];
    assert(id@ =~= packet@.subrange(0, 8));
    if !verify_connection_id(secret, now, remote, &id) {
        return Some(error_reply(tid, &Error::AccessDenied));
    }
    if action == ACTION_ANNOUNCE {
        let mut bytes: Vec<u8> = Vec::new();
        crate::bytes::push_all(&mut bytes, packet);
        let p = match AnnouncePacket::new(bytes) {
            Some(p) => p,
            None => return None,
        };
        let ext = match parse_extensions(p.extensions()) {
            Ok(ext) => ext,
            Err(e) => return Some(error_reply(tid, &e)),
        };
        let a = announce_params_from(&p, remote, now);
        let r = announce_reply(tracker, &a, &ext, tid);
        assert(udp_announce_params(packet@, *remote, now, a));
        return Some(r);
    }
    let hashes = scrape_hashes(packet);
    let counts = tracker.scrape(hashes.as_slice());
    let mut stats: Vec<(i32, i32, i32)> = Vec::new();
    let mut k: usize = 0;
    while k < counts.len()
        invariant
            k <= counts@.len() == hashes@.len() == scrape_count(packet@.len() as int),
            tracker.wf(),
            stats@.len() == k,
            forall|m: int| 0 <= m < counts@.len() ==> #[trigger] counts@[m] == scrape_counts(tracker.torrents(), hashes@[m]@),
            forall|m: int| 0 <= m < hashes@.len() ==> (#[trigger] hashes@[m])@ == packet@.subrange(16 + 20 * m, 36 + 20 * m),
            forall|m: int| 0 <= m < k ==> #[trigger] stats@[m] == scrape_entry(tracker.torrents(), packet@.subrange(16 + 20 * m, 36 + 20 * m)),
        decreases counts@.len() - k,
    {
        let (seeders, leechers, completed) = counts[k];
        assert(counts@[k as int] == scrape_counts(tracker.torrents(), hashes@[k as int]@));
        stats.push((wire_count(seeders), wire_count(completed), wire_count(leechers)));
        k = k + 1;
    }
    assert(stats@ =~= scrape_stats(tracker.torrents(), packet@));
    Some(encode_scrape_response(tid, stats.as_slice()))
}

} // verus!
