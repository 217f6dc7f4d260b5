//! The messages of the UDP tracker protocol and their big-endian wire form.
use vstd::prelude::*;

use crate::addr::{spec_ip_octets, IpAddress};
use crate::announce::Event;
use crate::bytes::{
    be_of_u16, be_of_u32, be_of_u64, lemma_i32_round_trip, lemma_i64_round_trip,
    lemma_u16_round_trip, lemma_u32_round_trip, lemma_u64_round_trip, push_all, push_u16, push_u32,
    push_u64, read_array20, read_u16, read_u32, read_u64, u16_of_be, u32_of_be, u64_of_be,
};

verus! {

/// The magic number that opens a connect request.
pub const PROTOCOL_ID: u64 = 0x41727101980;

pub const ACTION_CONNECT: u32 = 0;

pub const ACTION_ANNOUNCE: u32 = 1;

pub const ACTION_SCRAPE: u32 = 2;

pub const ACTION_ERROR: u32 = 3;

pub const MIN_CONNECT_SIZE: usize = 16;

pub const MIN_ANNOUNCE_SIZE: usize = 98;

pub const MIN_SCRAPE_SIZE: usize = 36;

/// The most info hashes that one scrape request is read for.
pub const MAX_SCRAPE_TORRENTS: usize = 80;

/// The longest error message that an error reply carries.
pub const MAX_ERROR_LEN: usize = 55;

pub open spec fn u32_at(b: Seq<u8>, off: int) -> u32 {
    u32_of_be(b.subrange(off, off + 4))
}

pub open spec fn u64_at(b: Seq<u8>, off: int) -> u64 {
    u64_of_be(b.subrange(off, off + 8))
}

pub open spec fn u16_at(b: Seq<u8>, off: int) -> u16 {
    u16_of_be(b.subrange(off, off + 2))
}

/// The wire code of an announce event.
pub open spec fn spec_event_code(e: Event) -> u32 {
    match e {
        Event::Empty => 0,
        Event::Completed => 1,
        Event::Started => 2,
        Event::Stopped => 3,
        Event::Paused => 4,
    }
}

/// The event that a wire code stands for; unknown codes are regular
/// announces.
pub open spec fn spec_event_of_code(c: u32) -> Event {
    if c == 1 {
        Event::Completed
    } else if c == 2 {
        Event::Started
    } else if c == 3 {
        Event::Stopped
    } else if c == 4 {
        Event::Paused
    } else {
        Event::Empty
    }
}

pub fn event_code(e: Event) -> (r: u32)
    ensures
        r == spec_event_code(e),
{
    match e {
        Event::Empty => 0,
        Event::Completed => 1,
        Event::Started => 2,
        Event::Stopped => 3,
        Event::Paused => 4,
    }
}

pub fn event_of_code(c: u32) -> (r: Event)
    ensures
        r == spec_event_of_code(c),
{
    if c == 1 {
        Event::Completed
    } else if c == 2 {
        Event::Started
    } else if c == 3 {
        Event::Stopped
    } else if c == 4 {
        Event::Paused
    } else {
        Event::Empty
    }
}

// ---------------------------------------------------------------- connect

/// The wire form of a connect request.
pub open spec fn spec_connect_request(transaction_id: u32) -> Seq<u8> {
    be_of_u64(PROTOCOL_ID) + be_of_u32(ACTION_CONNECT) + be_of_u32(transaction_id)
}

/// Whether `b` is a connect request: long enough, with the magic number and
/// the connect action.
pub open spec fn is_connect_request(b: Seq<u8>) -> bool {
    b.len() >= MIN_CONNECT_SIZE && u64_at(b, 0) == PROTOCOL_ID && u32_at(b, 8) == ACTION_CONNECT
}

pub fn encode_connect_request(transaction_id: u32) -> (r: Vec<u8>)
    ensures
        r@ == spec_connect_request(transaction_id),
{
    let mut out: Vec<u8> = Vec::new();
    push_u64(&mut out, PROTOCOL_ID);
    push_u32(&mut out, ACTION_CONNECT);
    push_u32(&mut out, transaction_id);
    out
}

/// The transaction id of a connect request.
pub fn parse_connect_request(b: &[u8]) -> (r: Option<u32>)
    ensures
        r == (if is_connect_request(b@) {
            Some(u32_at(b@, 12))
        } else {
            None::<u32>
        }),
{
    if b.len() < MIN_CONNECT_SIZE {
        return None;
    }
    if read_u64(b, 0) != PROTOCOL_ID || read_u32(b, 8) != ACTION_CONNECT {
        return None;
    }
    Some(read_u32(b, 12))
}

/// The wire form of a connect reply.
pub open spec fn spec_connect_response(transaction_id: u32, connection_id: Seq<u8>) -> Seq<u8> {
    be_of_u32(ACTION_CONNECT) + be_of_u32(transaction_id) + connection_id
}

pub fn encode_connect_response(transaction_id: u32, connection_id: &[u8; 8]) -> (r: Vec<u8>)
    ensures
        r@ == spec_connect_response(transaction_id, connection_id@),
{
    let mut out: Vec<u8> = Vec::new();
    push_u32(&mut out, ACTION_CONNECT);
    push_u32(&mut out, transaction_id);
    push_all(&mut out, connection_id.as_slice());
    out
}

/// The transaction id and connection id of a connect reply.
pub fn parse_connect_response(b: &[u8]) -> (r: Option<(u32, [u8; 8])>)
    ensures
        match r {
            Some((t, c)) => b@.len() >= 16 && u32_at(b@, 0) == ACTION_CONNECT && t == u32_at(b@, 4)
                && c@ == b@.subrange(8, 16),
            None => !(b@.len() >= 16 && u32_at(b@, 0) == ACTION_CONNECT),
        },
{
    if b.len() < 16 || read_u32(b, 0) != ACTION_CONNECT {
        return None;
    }
    let mut c = [0u8; 8];
    let mut i: usize = 0;
    while i < 8
        invariant
            i <= 8,
            b@.len() >= 16,
            forall|j: int| 0 <= j < i ==> c@[j] == b@[8 + j],
        decreases 8 - i,
    {
        c[i] = b[8 + i];
        i = i + 1;
    }
    assert(c@ =~= b@.subrange(8, 16));
    Some((read_u32(b, 4), c))
}

/// Serialising a connect request and parsing it gives back its transaction
/// id; the same holds of a connect reply and its connection id.
pub proof fn lemma_connect_round_trip(transaction_id: u32, connection_id: Seq<u8>)
    requires
        connection_id.len() == 8,
    ensures
        is_connect_request(spec_connect_request(transaction_id)),
        u32_at(spec_connect_request(transaction_id), 12) == transaction_id,
        u32_at(spec_connect_response(transaction_id, connection_id), 0) == ACTION_CONNECT,
        u32_at(spec_connect_response(transaction_id, connection_id), 4) == transaction_id,
        spec_connect_response(transaction_id, connection_id).subrange(8, 16) == connection_id,
{
    let b = spec_connect_request(transaction_id);
    lemma_u64_round_trip(PROTOCOL_ID);
    lemma_u32_round_trip(ACTION_CONNECT);
    lemma_u32_round_trip(transaction_id);
    assert(b.subrange(0, 8) =~= be_of_u64(PROTOCOL_ID));
    assert(b.subrange(8, 12) =~= be_of_u32(ACTION_CONNECT));
    assert(b.subrange(12, 16) =~= be_of_u32(transaction_id));
    let c = spec_connect_response(transaction_id, connection_id);
    assert(c.subrange(0, 4) =~= be_of_u32(ACTION_CONNECT));
    assert(c.subrange(4, 8) =~= be_of_u32(transaction_id));
    assert(c.subrange(8, 16) =~= connection_id);
}

// ---------------------------------------------------------------- announce

/// An announce request as its fields.
#[derive(Debug)]
pub struct AnnounceRequest {
    pub connection_id: [u8; 8],
    pub transaction_id: u32,
    pub info_hash: [u8; 20],
    pub peer_id: [u8; 20],
    pub downloaded: i64,
    pub left: i64,
    pub uploaded: i64,
    pub event: Event,
    /// The address that the peer declares; all zero for none.
    pub ip: [u8; 4],
    pub key: u32,
    pub num_want: i32,
    pub port: u16,
    /// The extension records after the fixed fields.
    pub extensions: Vec<u8>,
}

/// The wire form of an announce request.
pub open spec fn spec_announce_request(m: AnnounceRequest) -> Seq<u8> {
    m.connection_id@ + be_of_u32(ACTION_ANNOUNCE) + be_of_u32(m.transaction_id) + m.info_hash@
        + m.peer_id@ + be_of_u64(m.downloaded as u64) + be_of_u64(m.left as u64) + be_of_u64(
        m.uploaded as u64,
    ) + be_of_u32(spec_event_code(m.event)) + m.ip@ + be_of_u32(m.key) + be_of_u32(
        m.num_want as u32,
    ) + be_of_u16(m.port) + m.extensions@
}

pub fn encode_announce_request(m: &AnnounceRequest) -> (r: Vec<u8>)
    ensures
        r@ == spec_announce_request(*m),
{
    let mut out: Vec<u8> = Vec::new();
    push_all(&mut out, m.connection_id.as_slice());
    push_u32(&mut out, ACTION_ANNOUNCE);
    push_u32(&mut out, m.transaction_id);
    push_all(&mut out, m.info_hash.as_slice());
    push_all(&mut out, m.peer_id.as_slice());
    push_u64(&mut out, m.downloaded as u64);
    push_u64(&mut out, m.left as u64);
    push_u64(&mut out, m.uploaded as u64);
    push_u32(&mut out, event_code(m.event));
    push_all(&mut out, m.ip.as_slice());
    push_u32(&mut out, m.key);
    push_u32(&mut out, m.num_want as u32);
    push_u16(&mut out, m.port);
    push_all(&mut out, m.extensions.as_slice());
    out
}

/// A received announce request, read field by field.
pub struct AnnouncePacket {
    bytes: Vec<u8>,
}

impl AnnouncePacket {
    pub closed spec fn bytes(&self) -> Seq<u8> {
        self.bytes@
    }

    pub open spec fn wf(&self) -> bool {
        self.bytes().len() >= MIN_ANNOUNCE_SIZE
    }

    /// The packet `bytes`, if it is long enough to be an announce request.
    pub fn new(bytes: Vec<u8>) -> (r: Option<AnnouncePacket>)
        ensures
            match r {
                Some(p) => p.wf() && p.bytes() == bytes@,
                None => bytes@.len() < MIN_ANNOUNCE_SIZE,
            },
    {
        if bytes.len() < MIN_ANNOUNCE_SIZE {
            None
        } else {
            Some(AnnouncePacket { bytes })
        }
    }

    pub fn connection_id(&self) -> (r: [u8; 8])
        requires
            self.wf(),
        ensures
            r@ == self.bytes().subrange(0, 8),
    {
        let mut c = [0u8; 8];
        let mut i: usize = 0;
        while i < 8
            invariant
                i <= 8,
                self.wf(),
                forall|j: int| 0 <= j < i ==> c@[j] == self.bytes()[j],
            decreases 8 - i,
        {
            c[i] = self.bytes[i];
            i = i + 1;
        }
        assert(c@ =~= self.bytes().subrange(0, 8));
        c
    }

    pub fn action(&self) -> (r: u32)
        requires
            self.wf(),
        ensures
            r == u32_at(self.bytes(), 8),
    {
        read_u32(self.bytes.as_slice(), 8)
    }

    pub fn transaction_id(&self) -> (r: u32)
        requires
            self.wf(),
        ensures
            r == u32_at(self.bytes(), 12),
    {
        read_u32(self.bytes.as_slice(), 12)
    }

    pub fn info_hash(&self) -> (r: [u8; 20])
        requires
            self.wf(),
        ensures
            r@ == self.bytes().subrange(16, 36),
    {
        read_array20(self.bytes.as_slice(), 16)
    }

    pub fn peer_id(&self) -> (r: [u8; 20])
        requires
            self.wf(),
        ensures
            r@ == self.bytes().subrange(36, 56),
    {
        read_array20(self.bytes.as_slice(), 36)
    }

    pub fn downloaded(&self) -> (r: i64)
        requires
            self.wf(),
        ensures
            r == u64_at(self.bytes(), 56) as i64,
    {
        read_u64(self.bytes.as_slice(), 56) as i64
    }

    pub fn left(&self) -> (r: i64)
        requires
            self.wf(),
        ensures
            r == u64_at(self.bytes(), 64) as i64,
    {
        read_u64(self.bytes.as_slice(), 64) as i64
    }

    pub fn uploaded(&self) -> (r: i64)
        requires
            self.wf(),
        ensures
            r == u64_at(self.bytes(), 72) as i64,
    {
        read_u64(self.bytes.as_slice(), 72) as i64
    }

    pub fn event(&self) -> (r: Event)
        requires
            self.wf(),
        ensures
            r == spec_event_of_code(u32_at(self.bytes(), 80)),
    {
        event_of_code(read_u32(self.bytes.as_slice(), 80))
    }

    pub fn ip(&self) -> (r: [u8; 4])
        requires
            self.wf(),
        ensures
            r@ == self.bytes().subrange(84, 88),
    {
        let r = [self.bytes[84], self.bytes[85], self.bytes[86], self.bytes[87]];
        assert(r@ =~= self.bytes().subrange(84, 88));
        r
    }

    pub fn key(&self) -> (r: u32)
        requires
            self.wf(),
        ensures
            r == u32_at(self.bytes(), 88),
    {
        read_u32(self.bytes.as_slice(), 88)
    }

    pub fn num_want(&self) -> (r: i32)
        requires
            self.wf(),
        ensures
            r == u32_at(self.bytes(), 92) as i32,
    {
        read_u32(self.bytes.as_slice(), 92) as i32
    }

    pub fn port(&self) -> (r: u16)
        requires
            self.wf(),
        ensures
            r == u16_at(self.bytes(), 96),
    {
        read_u16(self.bytes.as_slice(), 96)
    }

    /// The extension records after the fixed fields.
    pub fn extensions(&self) -> (r: &[u8])
        requires
            self.wf(),
        ensures
            r@ == self.bytes().subrange(MIN_ANNOUNCE_SIZE as int, self.bytes().len() as int),
    {
        let s = self.bytes.as_slice();
        slice_from(s, MIN_ANNOUNCE_SIZE)
    }
}

/// `s[start..]`.
pub fn slice_from(s: &[u8], start: usize) -> (r: &[u8])
    requires
        start <= s@.len(),
    ensures
        r@ == s@.subrange(start as int, s@.len() as int),
{
    let n = s.len();
    let r = s.split_at(start).1;
    r
}

/// Every field of an announce request survives serialisation and parsing.
pub proof fn lemma_announce_round_trip(m: AnnounceRequest)
    ensures
        ({
            let b = spec_announce_request(m);
            &&& b.len() >= MIN_ANNOUNCE_SIZE
            &&& b.subrange(0, 8) == m.connection_id@
            &&& u32_at(b, 8) == ACTION_ANNOUNCE
            &&& u32_at(b, 12) == m.transaction_id
            &&& b.subrange(16, 36) == m.info_hash@
            &&& b.subrange(36, 56) == m.peer_id@
            &&& u64_at(b, 56) as i64 == m.downloaded
            &&& u64_at(b, 64) as i64 == m.left
            &&& u64_at(b, 72) as i64 == m.uploaded
            &&& spec_event_of_code(u32_at(b, 80)) == m.event
            &&& b.subrange(84, 88) == m.ip@
            &&& u32_at(b, 88) == m.key
            &&& u32_at(b, 92) as i32 == m.num_want
            &&& u16_at(b, 96) == m.port
            &&& b.subrange(98, b.len() as int) == m.extensions@
        }),
{
    let b = spec_announce_request(m);
    lemma_u32_round_trip(ACTION_ANNOUNCE);
    lemma_u32_round_trip(m.transaction_id);
    lemma_u64_round_trip(m.downloaded as u64);
    lemma_u64_round_trip(m.left as u64);
    lemma_u64_round_trip(m.uploaded as u64);
    lemma_i64_round_trip(m.downloaded);
    lemma_i64_round_trip(m.left);
    lemma_i64_round_trip(m.uploaded);
    lemma_u32_round_trip(spec_event_code(m.event));
    lemma_u32_round_trip(m.key);
    lemma_u32_round_trip(m.num_want as u32);
    lemma_i32_round_trip(m.num_want);
    lemma_u16_round_trip(m.port);
    assert(b.subrange(0, 8) =~= m.connection_id@);
    assert(b.subrange(8, 12) =~= be_of_u32(ACTION_ANNOUNCE));
    assert(b.subrange(12, 16) =~= be_of_u32(m.transaction_id));
    assert(b.subrange(16, 36) =~= m.info_hash@);
    assert(b.subrange(36, 56) =~= m.peer_id@);
    assert(b.subrange(56, 64) =~= be_of_u64(m.downloaded as u64));
    assert(b.subrange(64, 72) =~= be_of_u64(m.left as u64));
    assert(b.subrange(72, 80) =~= be_of_u64(m.uploaded as u64));
    assert(b.subrange(80, 84) =~= be_of_u32(spec_event_code(m.event)));
    assert(b.subrange(84, 88) =~= m.ip@);
    assert(b.subrange(88, 92) =~= be_of_u32(m.key));
    assert(b.subrange(92, 96) =~= be_of_u32(m.num_want as u32));
    assert(b.subrange(96, 98) =~= be_of_u16(m.port));
    assert(b.subrange(98, b.len() as int) =~= m.extensions@);
}

// ---------------------------------------------------------------- announce reply

/// The wire form of one peer endpoint: 18 bytes in an IPv6 reply (the
/// address mapped into IPv6 where it is IPv4), 6 bytes in an IPv4 reply.
pub open spec fn spec_peer_bytes(p: (IpAddress, u16), ipv6: bool) -> Seq<u8> {
    if ipv6 {
        spec_ip_octets(p.0) + be_of_u16(p.1)
    } else {
        match p.0 {
            IpAddress::V4(a) => a@ + be_of_u16(p.1),
            IpAddress::V6(a) => a@.subrange(12, 16) + be_of_u16(p.1),
        }
    }
}

/// The wire form of a list of peer endpoints.
pub open spec fn spec_peers_bytes(peers: Seq<(IpAddress, u16)>, ipv6: bool) -> Seq<u8>
    decreases peers.len(),
{
    if peers.len() == 0 {
        seq![]
    } else {
        spec_peers_bytes(peers.drop_last(), ipv6) + spec_peer_bytes(peers.last(), ipv6)
    }
}

/// Whether every endpoint can be written in a reply of the family: an IPv4
/// reply carries IPv4 addresses only.
pub open spec fn fits_family(peers: Seq<(IpAddress, u16)>, ipv6: bool) -> bool {
    forall|k: int| 0 <= k < peers.len() ==> ipv6 || (#[trigger] peers[k]).0 is V4
}

/// The length of the wire form of one endpoint.
pub open spec fn peer_stride(ipv6: bool) -> int {
    if ipv6 {
        18
    } else {
        6
    }
}

/// The wire form of an announce reply.
pub open spec fn spec_announce_response(
    transaction_id: u32,
    interval: i32,
    leechers: i32,
    seeders: i32,
    ipv6: bool,
    peers: Seq<(IpAddress, u16)>,
) -> Seq<u8> {
    be_of_u32(ACTION_ANNOUNCE) + be_of_u32(transaction_id) + be_of_u32(interval as u32) + be_of_u32(
        leechers as u32,
    ) + be_of_u32(seeders as u32) + spec_peers_bytes(peers, ipv6)
}

pub proof fn lemma_peers_bytes_len(peers: Seq<(IpAddress, u16)>, ipv6: bool)
    ensures
        spec_peers_bytes(peers, ipv6).len() == peers.len() * peer_stride(ipv6),
    decreases peers.len(),
{
    if peers.len() > 0 {
        lemma_peers_bytes_len(peers.drop_last(), ipv6);
        let p = peers.last();
        assert(spec_peer_bytes(p, ipv6).len() == peer_stride(ipv6));
        assert(peers.len() * peer_stride(ipv6) == (peers.len() - 1) * peer_stride(ipv6) + peer_stride(
            ipv6,
        )) by (nonlinear_arith);
    }
}

/// The `k`-th endpoint stands at its stride in the wire form.
pub proof fn lemma_peers_bytes_chunk(peers: Seq<(IpAddress, u16)>, ipv6: bool, k: int)
    requires
        0 <= k < peers.len(),
    ensures
        k * peer_stride(ipv6) + peer_stride(ipv6) <= spec_peers_bytes(peers, ipv6).len(),
        spec_peers_bytes(peers, ipv6).subrange(
            k * peer_stride(ipv6),
            k * peer_stride(ipv6) + peer_stride(ipv6),
        ) == spec_peer_bytes(peers[k], ipv6),
    decreases peers.len(),
{
    let s = peer_stride(ipv6);
    let init = peers.drop_last();
    lemma_peers_bytes_len(init, ipv6);
    lemma_peers_bytes_len(peers, ipv6);
    let b = spec_peers_bytes(peers, ipv6);
    assert(b == spec_peers_bytes(init, ipv6) + spec_peer_bytes(peers.last(), ipv6));
    if k == peers.len() - 1 {
        assert(k * s == init.len() * s);
        assert(b.subrange(k * s, k * s + s) =~= spec_peer_bytes(peers.last(), ipv6));
    } else {
        lemma_peers_bytes_chunk(init, ipv6, k);
        assert(k * s + s <= init.len() * s) by (nonlinear_arith)
            requires
                k + 1 <= init.len(),
                s > 0,
        ;
        assert(b.subrange(k * s, k * s + s) =~= spec_peers_bytes(init, ipv6).subrange(k * s, k * s + s));
        assert(init[k] == peers[k]);
    }
}

/// Two endpoints of the family that have the same wire form are the same.
pub proof fn lemma_peer_bytes_injective(p: (IpAddress, u16), q: (IpAddress, u16), ipv6: bool)
    requires
        spec_peer_bytes(p, ipv6) == spec_peer_bytes(q, ipv6),
        ipv6 ==> p.0 is V6 && q.0 is V6,
        !ipv6 ==> p.0 is V4 && q.0 is V4,
    ensures
        p == q,
{
    let bp = spec_peer_bytes(p, ipv6);
    let bq = spec_peer_bytes(q, ipv6);
    lemma_u16_round_trip(p.1);
    lemma_u16_round_trip(q.1);
    match (p.0, q.0) {
        (IpAddress::V4(a), IpAddress::V4(c)) => {
            assert(bp.subrange(0, 4) =~= a@);
            assert(bq.subrange(0, 4) =~= c@);
            assert(a =~= c);
            assert(bp.subrange(4, 6) =~= be_of_u16(p.1));
            assert(bq.subrange(4, 6) =~= be_of_u16(q.1));
        },
        (IpAddress::V6(a), IpAddress::V6(c)) => {
            assert(bp.subrange(0, 16) =~= a@);
            assert(bq.subrange(0, 16) =~= c@);
            assert(a =~= c);
            assert(bp.subrange(16, 18) =~= be_of_u16(p.1));
            assert(bq.subrange(16, 18) =~= be_of_u16(q.1));
        },
        _ => {},
    }
}

/// The peer count that a 32-bit field of a reply carries: counts beyond
/// `i32::MAX` are written as `i32::MAX`.
pub open spec fn spec_wire_count(c: u64) -> i32 {
    if c > 0x7fff_ffff {
        0x7fff_ffff
    } else {
        c as i32
    }
}

pub fn wire_count(c: u64) -> (r: i32)
    ensures
        r == spec_wire_count(c),
{
    if c > 0x7fff_ffff {
        0x7fff_ffff
    } else {
        c as i32
    }
}

/// Appends the wire form of one endpoint.
fn push_peer_bytes(out: &mut Vec<u8>, p: &(IpAddress, u16), ipv6: bool)
    requires
        ipv6 || p.0 is V4,
    ensures
        final(out)@ == old(out)@ + spec_peer_bytes(*p, ipv6),
{
    if ipv6 {
        let o = p.0.octets16();
        push_all(out, o.as_slice());
    } else {
        match &p.0 {
            IpAddress::V4(a) => push_all(out, a.as_slice()),
            IpAddress::V6(_) => {},
        }
    }
    push_u16(out, p.1);
    assert(final(out)@ =~= old(out)@ + spec_peer_bytes(*p, ipv6));
}

/// The reply to an announce, built field by field.
pub struct AnnounceReply {
    transaction_id: u32,
    interval: i32,
    leechers: i32,
    seeders: i32,
    ipv6: bool,
    peers: Vec<(IpAddress, u16)>,
}

impl AnnounceReply {
    pub closed spec fn spec_transaction_id(&self) -> u32 {
        self.transaction_id
    }

    pub closed spec fn spec_interval(&self) -> i32 {
        self.interval
    }

    pub closed spec fn spec_leechers(&self) -> i32 {
        self.leechers
    }

    pub closed spec fn spec_seeders(&self) -> i32 {
        self.seeders
    }

    pub closed spec fn spec_ipv6(&self) -> bool {
        self.ipv6
    }

    pub closed spec fn spec_peers(&self) -> Seq<(IpAddress, u16)> {
        self.peers@
    }

    pub open spec fn wf(&self) -> bool {
        fits_family(self.spec_peers(), self.spec_ipv6()) && self.spec_peers().len()
            <= crate::tracker::MAX_NUM_WANT
    }

    /// The wire form of the reply.
    pub open spec fn spec_bytes(&self) -> Seq<u8> {
        spec_announce_response(
            self.spec_transaction_id(),
            self.spec_interval(),
            self.spec_leechers(),
            self.spec_seeders(),
            self.spec_ipv6(),
            self.spec_peers(),
        )
    }

    /// An empty reply to the request `transaction_id`, for a requester that
    /// connected over IPv6 (`ipv6`) or IPv4.
    pub fn new(transaction_id: u32, ipv6: bool) -> (r: Self)
        ensures
            r.wf(),
            r.spec_transaction_id() == transaction_id,
            r.spec_ipv6() == ipv6,
            r.spec_interval() == 0 && r.spec_leechers() == 0 && r.spec_seeders() == 0,
            r.spec_peers() == Seq::<(IpAddress, u16)>::empty(),
    {
        AnnounceReply { transaction_id, interval: 0, leechers: 0, seeders: 0, ipv6, peers: Vec::new() }
    }

    pub fn set_interval(&mut self, interval: i32)
        ensures
            final(self).spec_interval() == interval,
            final(self).spec_transaction_id() == old(self).spec_transaction_id(),
            final(self).spec_leechers() == old(self).spec_leechers(),
            final(self).spec_seeders() == old(self).spec_seeders(),
            final(self).spec_ipv6() == old(self).spec_ipv6(),
            final(self).spec_peers() == old(self).spec_peers(),
    {
        self.interval = interval;
    }

    pub fn set_leechers(&mut self, leechers: i32)
        ensures
            final(self).spec_leechers() == leechers,
            final(self).spec_transaction_id() == old(self).spec_transaction_id(),
            final(self).spec_interval() == old(self).spec_interval(),
            final(self).spec_seeders() == old(self).spec_seeders(),
            final(self).spec_ipv6() == old(self).spec_ipv6(),
            final(self).spec_peers() == old(self).spec_peers(),
    {
        self.leechers = leechers;
    }

    pub fn set_seeders(&mut self, seeders: i32)
        ensures
            final(self).spec_seeders() == seeders,
            final(self).spec_transaction_id() == old(self).spec_transaction_id(),
            final(self).spec_interval() == old(self).spec_interval(),
            final(self).spec_leechers() == old(self).spec_leechers(),
            final(self).spec_ipv6() == old(self).spec_ipv6(),
            final(self).spec_peers() == old(self).spec_peers(),
    {
        self.seeders = seeders;
    }

    /// Adds one endpoint, unless the reply already holds `MAX_NUM_WANT`.
    pub fn push_peer(&mut self, ip: IpAddress, port: u16)
        requires
            old(self).wf(),
            old(self).spec_ipv6() || ip is V4,
        ensures
            final(self).wf(),
            final(self).spec_peers() == (if old(self).spec_peers().len() < crate::tracker::MAX_NUM_WANT {
                old(self).spec_peers().push((ip, port))
            } else {
                old(self).spec_peers()
            }),
            final(self).spec_transaction_id() == old(self).spec_transaction_id(),
            final(self).spec_interval() == old(self).spec_interval(),
            final(self).spec_leechers() == old(self).spec_leechers(),
            final(self).spec_seeders() == old(self).spec_seeders(),
            final(self).spec_ipv6() == old(self).spec_ipv6(),
    {
        if self.peers.len() < crate::tracker::MAX_NUM_WANT {
            self.peers.push((ip, port));
            assert(fits_family(self.peers@, self.ipv6)) by {
                assert forall|k: int| 0 <= k < self.peers@.len() implies self.ipv6 || (
                #[trigger] self.peers@[k]).0 is V4 by {
                    if k < self.peers@.len() - 1 {
                        assert(self.peers@[k] == old(self).peers@[k]);
                    }
                }
            };
        }
    }

    /// Adds the endpoints of `peers` in order, as far as the reply has room.
    pub fn add_peers(&mut self, peers: &[(IpAddress, u16)])
        requires
            old(self).wf(),
            fits_family(peers@, old(self).spec_ipv6()),
            old(self).spec_peers().len() + peers@.len() <= crate::tracker::MAX_NUM_WANT,
        ensures
            final(self).wf(),
            final(self).spec_peers() == old(self).spec_peers() + peers@,
            final(self).spec_transaction_id() == old(self).spec_transaction_id(),
            final(self).spec_interval() == old(self).spec_interval(),
            final(self).spec_leechers() == old(self).spec_leechers(),
            final(self).spec_seeders() == old(self).spec_seeders(),
            final(self).spec_ipv6() == old(self).spec_ipv6(),
    {
        let mut i: usize = 0;
        while i < peers.len()
            invariant
                i <= peers@.len(),
                self.wf(),
                fits_family(peers@, old(self).spec_ipv6()),
                old(self).spec_peers().len() + peers@.len() <= crate::tracker::MAX_NUM_WANT,
                self.spec_peers() == old(self).spec_peers() + peers@.subrange(0, i as int),
                self.spec_transaction_id() == old(self).spec_transaction_id(),
                self.spec_interval() == old(self).spec_interval(),
                self.spec_leechers() == old(self).spec_leechers(),
                self.spec_seeders() == old(self).spec_seeders(),
                self.spec_ipv6() == old(self).spec_ipv6(),
            decreases peers@.len() - i,
        {
            let p = peers[i];
            assert(self.spec_ipv6() || peers@[i as int].0 is V4);
            self.push_peer(p.0, p.1);
            i = i + 1;
            assert(self.spec_peers() =~= old(self).spec_peers() + peers@.subrange(0, i as int));
        }
        assert(peers@.subrange(0, i as int) =~= peers@);
    }

    /// The wire form of the reply.
    pub fn to_bytes(&self) -> (r: Vec<u8>)
        requires
            self.wf(),
        ensures
            r@ == self.spec_bytes(),
    {
        let mut out: Vec<u8> = Vec::new();
        push_u32(&mut out, ACTION_ANNOUNCE);
        push_u32(&mut out, self.transaction_id);
        push_u32(&mut out, self.interval as u32);
        push_u32(&mut out, self.leechers as u32);
        push_u32(&mut out, self.seeders as u32);
        let ghost head = out@;
        let mut i: usize = 0;
        while i < self.peers.len()
            invariant
                i <= self.peers@.len(),
                fits_family(self.peers@, self.ipv6),
                out@ == head + spec_peers_bytes(self.peers@.subrange(0, i as int), self.ipv6),
            decreases self.peers@.len() - i,
        {
            assert(self.ipv6 || self.peers@[i as int].0 is V4);
            push_peer_bytes(&mut out, &self.peers[i], self.ipv6);
            proof {
                assert(self.peers@.subrange(0, i + 1).drop_last() =~= self.peers@.subrange(0, i as int));
                assert(self.peers@.subrange(0, i + 1).last() == self.peers@[i as int]);
            }
            i = i + 1;
            assert(out@ =~= head + spec_peers_bytes(self.peers@.subrange(0, i as int), self.ipv6));
        }
        assert(self.peers@.subrange(0, i as int) =~= self.peers@);
        out
    }
}

/// Whether `b` is an announce reply whose peer list is a whole number of
/// endpoints of the family.
pub open spec fn is_announce_response(b: Seq<u8>, ipv6: bool) -> bool {
    b.len() >= 20 && u32_at(b, 0) == ACTION_ANNOUNCE && (b.len() - 20) % peer_stride(ipv6) == 0
}

fn read_peer(b: &[u8], off: usize, ipv6: bool) -> (r: (IpAddress, u16))
    requires
        off + peer_stride(ipv6) <= b@.len(),
    ensures
        spec_peer_bytes(r, ipv6) == b@.subrange(off as int, off + peer_stride(ipv6)),
        ipv6 ==> r.0 is V6,
        !ipv6 ==> r.0 is V4,
{
    let _n = b.len();
    if ipv6 {
        let mut a = [0u8; 16];
        let mut i: usize = 0;
        while i < 16
            invariant
                i <= 16,
                off + 18 <= b@.len(),
                b@.len() <= usize::MAX,
                forall|j: int| 0 <= j < i ==> a@[j] == b@[off + j],
            decreases 16 - i,
        {
            a[i] = b[off + i];
            i = i + 1;
        }
        let port = read_u16(b, off + 16);
        proof {
            lemma_u16_round_trip_bytes(b@.subrange(off + 16, off + 18));
        }
        let r = (IpAddress::V6(a), port);
        assert(spec_peer_bytes(r, ipv6) =~= b@.subrange(off as int, off + 18));
        r
    } else {
        let a = [b[off], b[off + 1], b[off + 2], b[off + 3]];
        let port = read_u16(b, off + 4);
        proof {
            lemma_u16_round_trip_bytes(b@.subrange(off + 4, off + 6));
        }
        let r = (IpAddress::V4(a), port);
        assert(spec_peer_bytes(r, ipv6) =~= b@.subrange(off as int, off + 6));
        r
    }
}

/// Two bytes are the wire form of the value they spell.
pub proof fn lemma_u16_round_trip_bytes(b: Seq<u8>)
    requires
        b.len() == 2,
    ensures
        be_of_u16(u16_of_be(b)) == b,
{
    let x = b[0];
    let y = b[1];
    assert((((((x as u16) << 8u16) | (y as u16)) >> 8u16) as u8) == x) by (bit_vector);
    assert(((((x as u16) << 8u16) | (y as u16)) as u8) == y) by (bit_vector);
    assert(be_of_u16(u16_of_be(b)) =~= b);
}

/// The fields of an announce reply for a requester of the family `ipv6`:
/// transaction id, interval, leechers, seeders and endpoints.
pub fn parse_announce_response(b: &[u8], ipv6: bool) -> (r: Option<(u32, i32, i32, i32, Vec<(IpAddress, u16)>)>)
    ensures
        match r {
            None => !is_announce_response(b@, ipv6),
            Some((t, interval, leechers, seeders, peers)) => {
                &&& is_announce_response(b@, ipv6)
                &&& t == u32_at(b@, 4)
                &&& interval == u32_at(b@, 8) as i32
                &&& leechers == u32_at(b@, 12) as i32
                &&& seeders == u32_at(b@, 16) as i32
                &&& peers@.len() * peer_stride(ipv6) == b@.len() - 20
                &&& forall|k: int|
                    0 <= k < peers@.len() ==> spec_peer_bytes(#[trigger] peers@[k], ipv6) == b@.subrange(
                        20 + k * peer_stride(ipv6),
                        20 + k * peer_stride(ipv6) + peer_stride(ipv6),
                    ) && (ipv6 ==> peers@[k].0 is V6) && (!ipv6 ==> peers@[k].0 is V4)
            },
        },
{
    let stride: usize = if ipv6 {
        18
    } else {
        6
    };
    if b.len() < 20 || read_u32(b, 0) != ACTION_ANNOUNCE || (b.len() - 20) % stride != 0 {
        return None;
    }
    let mut peers: Vec<(IpAddress, u16)> = Vec::new();
    let mut off: usize = 20;
    while off < b.len()
        invariant
            stride as int == peer_stride(ipv6),
            20 <= off <= b@.len(),
            (b@.len() - off) % (stride as int) == 0,
            off == 20 + peers@.len() * stride,
            forall|k: int|
                0 <= k < peers@.len() ==> spec_peer_bytes(#[trigger] peers@[k], ipv6) == b@.subrange(
                    20 + k * peer_stride(ipv6),
                    20 + k * peer_stride(ipv6) + peer_stride(ipv6),
                ) && (ipv6 ==> peers@[k].0 is V6) && (!ipv6 ==> peers@[k].0 is V4),
        decreases b@.len() - off,
    {
        assert(off + stride <= b@.len()) by (nonlinear_arith)
            requires
                off < b@.len(),
                (b@.len() - off) % (stride as int) == 0,
                stride > 0,
        ;
        let p = read_peer(b, off, ipv6);
        let ghost k = peers@.len() as int;
        peers.push(p);
        assert(off + stride == 20 + peers@.len() * stride) by (nonlinear_arith)
            requires
                off == 20 + k * stride,
                peers@.len() == k + 1,
        ;
        off = off + stride;
    }
    assert(peers@.len() * peer_stride(ipv6) == b@.len() - 20);
    Some((read_u32(b, 4), read_u32(b, 8) as i32, read_u32(b, 12) as i32, read_u32(b, 16) as i32, peers))
}

/// Serialising an announce reply and parsing it gives back its fields and
/// its endpoints, where these are of the reply's family.
pub proof fn lemma_announce_response_round_trip(
    transaction_id: u32,
    interval: i32,
    leechers: i32,
    seeders: i32,
    ipv6: bool,
    peers: Seq<(IpAddress, u16)>,
    parsed: Seq<(IpAddress, u16)>,
)
    requires
        forall|k: int| 0 <= k < peers.len() ==> (ipv6 ==> (#[trigger] peers[k]).0 is V6) && (!ipv6
            ==> peers[k].0 is V4),
        ({
            let b = spec_announce_response(transaction_id, interval, leechers, seeders, ipv6, peers);
            &&& parsed.len() * peer_stride(ipv6) == b.len() - 20
            &&& forall|k: int|
                0 <= k < parsed.len() ==> spec_peer_bytes(#[trigger] parsed[k], ipv6) == b.subrange(
                    20 + k * peer_stride(ipv6),
                    20 + k * peer_stride(ipv6) + peer_stride(ipv6),
                ) && (ipv6 ==> parsed[k].0 is V6) && (!ipv6 ==> parsed[k].0 is V4)
        }),
    ensures
        ({
            let b = spec_announce_response(transaction_id, interval, leechers, seeders, ipv6, peers);
            &&& is_announce_response(b, ipv6)
            &&& u32_at(b, 4) == transaction_id
            &&& u32_at(b, 8) as i32 == interval
            &&& u32_at(b, 12) as i32 == leechers
            &&& u32_at(b, 16) as i32 == seeders
        }),
        parsed == peers,
{
    let b = spec_announce_response(transaction_id, interval, leechers, seeders, ipv6, peers);
    let pb = spec_peers_bytes(peers, ipv6);
    let s = peer_stride(ipv6);
    lemma_peers_bytes_len(peers, ipv6);
    lemma_u32_round_trip(ACTION_ANNOUNCE);
    lemma_u32_round_trip(transaction_id);
    lemma_u32_round_trip(interval as u32);
    lemma_u32_round_trip(leechers as u32);
    lemma_u32_round_trip(seeders as u32);
    lemma_i32_round_trip(interval);
    lemma_i32_round_trip(leechers);
    lemma_i32_round_trip(seeders);
    assert(b.subrange(0, 4) =~= be_of_u32(ACTION_ANNOUNCE));
    assert(b.subrange(4, 8) =~= be_of_u32(transaction_id));
    assert(b.subrange(8, 12) =~= be_of_u32(interval as u32));
    assert(b.subrange(12, 16) =~= be_of_u32(leechers as u32));
    assert(b.subrange(16, 20) =~= be_of_u32(seeders as u32));
    assert((b.len() - 20) % s == 0) by (nonlinear_arith)
        requires
            b.len() - 20 == peers.len() * s,
            s > 0,
    ;
    assert(parsed.len() == peers.len()) by (nonlinear_arith)
        requires
            parsed.len() * s == peers.len() * s,
            s > 0,
    ;
    assert forall|k: int| 0 <= k < peers.len() implies parsed[k] == peers[k] by {
        lemma_peers_bytes_chunk(peers, ipv6, k);
        assert(b.subrange(20 + k * s, 20 + k * s + s) =~= pb.subrange(k * s, k * s + s));
        lemma_peer_bytes_injective(parsed[k], peers[k], ipv6);
    }
    assert(parsed =~= peers);
}

// ---------------------------------------------------------------- scrape

/// The concatenated info hashes of a scrape request.
pub open spec fn spec_hashes_bytes(h: Seq<[u8; 20]>) -> Seq<u8>
    decreases h.len(),
{
    if h.len() == 0 {
        seq![]
    } else {
        spec_hashes_bytes(h.drop_last()) + h.last()@
    }
}

/// The wire form of a scrape request.
pub open spec fn spec_scrape_request(connection_id: Seq<u8>, transaction_id: u32, h: Seq<[u8; 20]>) -> Seq<u8> {
    connection_id + be_of_u32(ACTION_SCRAPE) + be_of_u32(transaction_id) + spec_hashes_bytes(h)
}

/// The number of info hashes that a scrape request of `len` bytes is read
/// for.
pub open spec fn scrape_count(len: int) -> int {
    if (len - 16) / 20 > MAX_SCRAPE_TORRENTS {
        MAX_SCRAPE_TORRENTS as int
    } else {
        (len - 16) / 20
    }
}

pub fn encode_scrape_request(connection_id: &[u8; 8], transaction_id: u32, info_hashes: &[[u8; 20]]) -> (r: Vec<u8>)
    ensures
        r@ == spec_scrape_request(connection_id@, transaction_id, info_hashes@),
{
    let mut out: Vec<u8> = Vec::new();
    push_all(&mut out, connection_id.as_slice());
    push_u32(&mut out, ACTION_SCRAPE);
    push_u32(&mut out, transaction_id);
    let ghost head = out@;
    let mut i: usize = 0;
    while i < info_hashes.len()
        invariant
            i <= info_hashes@.len(),
            out@ == head + spec_hashes_bytes(info_hashes@.subrange(0, i as int)),
        decreases info_hashes@.len() - i,
    {
        push_all(&mut out, info_hashes[i].as_slice());
        proof {
            assert(info_hashes@.subrange(0, i + 1).drop_last() =~= info_hashes@.subrange(0, i as int));
        }
        i = i + 1;
        assert(out@ =~= head + spec_hashes_bytes(info_hashes@.subrange(0, i as int)));
    }
    assert(info_hashes@.subrange(0, i as int) =~= info_hashes@);
    out
}

/// The info hashes of a scrape request: as many whole 20-byte hashes as
/// follow the header, at most `MAX_SCRAPE_TORRENTS`.
pub fn scrape_hashes(b: &[u8]) -> (r: Vec<[u8; 20]>)
    requires
        b@.len() >= 16,
    ensures
        r@.len() == scrape_count(b@.len() as int),
        forall|k: int| 0 <= k < r@.len() ==> (#[trigger] r@[k])@ == b@.subrange(16 + 20 * k, 36 + 20 * k),
{
    let n = (b.len() - 16) / 20;
    let n = if n > MAX_SCRAPE_TORRENTS {
        MAX_SCRAPE_TORRENTS
    } else {
        n
    };
    let mut out: Vec<[u8; 20]> = Vec::new();
    let mut k: usize = 0;
    while k < n
        invariant
            k <= n,
            n == scrape_count(b@.len() as int),
            16 + 20 * n <= b@.len(),
            out@.len() == k,
            forall|m: int| 0 <= m < k ==> (#[trigger] out@[m])@ == b@.subrange(16 + 20 * m, 36 + 20 * m),
        decreases n - k,
    {
        out.push(read_array20(b, 16 + 20 * k));
        k = k + 1;
    }
    out
}

/// The wire forms of the given hashes follow each other.
pub proof fn lemma_hashes_bytes_chunk(h: Seq<[u8; 20]>, k: int)
    requires
        0 <= k < h.len(),
    ensures
        spec_hashes_bytes(h).len() == 20 * h.len(),
        spec_hashes_bytes(h).subrange(20 * k, 20 * k + 20) == h[k]@,
    decreases h.len(),
{
    let init = h.drop_last();
    if init.len() > 0 && k < init.len() {
        lemma_hashes_bytes_chunk(init, k);
        assert(spec_hashes_bytes(h).subrange(20 * k, 20 * k + 20) =~= spec_hashes_bytes(init).subrange(20 * k, 20 * k + 20));
        assert(init[k] == h[k]);
    } else {
        if init.len() > 0 {
            lemma_hashes_bytes_chunk(init, 0);
        } else {
            assert(spec_hashes_bytes(init) =~= seq![]);
        }
        assert(spec_hashes_bytes(h).subrange(20 * k, 20 * k + 20) =~= h.last()@);
    }
}

/// Serialising a scrape request of at most `MAX_SCRAPE_TORRENTS` hashes and
/// reading it gives back its ids and its hashes.
pub proof fn lemma_scrape_request_round_trip(connection_id: Seq<u8>, transaction_id: u32, h: Seq<[u8; 20]>, k: int)
    requires
        connection_id.len() == 8,
        h.len() <= MAX_SCRAPE_TORRENTS,
        0 <= k < h.len(),
    ensures
        ({
            let b = spec_scrape_request(connection_id, transaction_id, h);
            &&& b.subrange(0, 8) == connection_id
            &&& u32_at(b, 8) == ACTION_SCRAPE
            &&& u32_at(b, 12) == transaction_id
            &&& scrape_count(b.len() as int) == h.len()
            &&& b.subrange(16 + 20 * k, 36 + 20 * k) == h[k]@
        }),
{
    let b = spec_scrape_request(connection_id, transaction_id, h);
    lemma_hashes_bytes_chunk(h, k);
    lemma_u32_round_trip(ACTION_SCRAPE);
    lemma_u32_round_trip(transaction_id);
    assert(b.subrange(0, 8) =~= connection_id);
    assert(b.subrange(8, 12) =~= be_of_u32(ACTION_SCRAPE));
    assert(b.subrange(12, 16) =~= be_of_u32(transaction_id));
    assert(b.subrange(16 + 20 * k, 36 + 20 * k) =~= spec_hashes_bytes(h).subrange(20 * k, 20 * k + 20));
}

/// The wire form of the counts of a scrape reply: seeders, completions,
/// leechers for each torrent.
pub open spec fn spec_stats_bytes(s: Seq<(i32, i32, i32)>) -> Seq<u8>
    decreases s.len(),
{
    if s.len() == 0 {
        seq![]
    } else {
        spec_stats_bytes(s.drop_last()) + be_of_u32(s.last().0 as u32) + be_of_u32(s.last().1 as u32)
            + be_of_u32(s.last().2 as u32)
    }
}

/// The wire form of a scrape reply; each entry is (seeders, completions,
/// leechers), in the order of the request.
pub open spec fn spec_scrape_response(transaction_id: u32, s: Seq<(i32, i32, i32)>) -> Seq<u8> {
    be_of_u32(ACTION_SCRAPE) + be_of_u32(transaction_id) + spec_stats_bytes(s)
}

pub fn encode_scrape_response(transaction_id: u32, stats: &[(i32, i32, i32)]) -> (r: Vec<u8>)
    ensures
        r@ == spec_scrape_response(transaction_id, stats@),
{
    let mut out: Vec<u8> = Vec::new();
    push_u32(&mut out, ACTION_SCRAPE);
    push_u32(&mut out, transaction_id);
    let ghost head = out@;
    let mut i: usize = 0;
    while i < stats.len()
        invariant
            i <= stats@.len(),
            out@ == head + spec_stats_bytes(stats@.subrange(0, i as int)),
        decreases stats@.len() - i,
    {
        let (a, b, c) = stats[i];
        push_u32(&mut out, a as u32);
        push_u32(&mut out, b as u32);
        push_u32(&mut out, c as u32);
        proof {
            assert(stats@.subrange(0, i + 1).drop_last() =~= stats@.subrange(0, i as int));
        }
        i = i + 1;
        assert(out@ =~= head + spec_stats_bytes(stats@.subrange(0, i as int)));
    }
    assert(stats@.subrange(0, i as int) =~= stats@);
    out
}

pub proof fn lemma_stats_bytes_chunk(s: Seq<(i32, i32, i32)>, k: int)
    requires
        0 <= k < s.len(),
    ensures
        spec_stats_bytes(s).len() == 12 * s.len(),
        spec_stats_bytes(s).subrange(12 * k, 12 * k + 12) == be_of_u32(s[k].0 as u32) + be_of_u32(
            s[k].1 as u32,
        ) + be_of_u32(s[k].2 as u32),
    decreases s.len(),
{
    let init = s.drop_last();
    if init.len() > 0 && k < init.len() {
        lemma_stats_bytes_chunk(init, k);
        assert(spec_stats_bytes(s).subrange(12 * k, 12 * k + 12) =~= spec_stats_bytes(init).subrange(12 * k, 12 * k + 12));
        assert(init[k] == s[k]);
    } else {
        if init.len() > 0 {
            lemma_stats_bytes_chunk(init, 0);
        } else {
            assert(spec_stats_bytes(init) =~= seq![]);
        }
        assert(spec_stats_bytes(s).subrange(12 * k, 12 * k + 12) =~= be_of_u32(s[k].0 as u32)
            + be_of_u32(s[k].1 as u32) + be_of_u32(s[k].2 as u32));
    }
}

/// The transaction id and counts of a scrape reply.
pub fn parse_scrape_response(b: &[u8]) -> (r: Option<(u32, Vec<(i32, i32, i32)>)>)
    ensures
        match r {
            None => !(b@.len() >= 8 && u32_at(b@, 0) == ACTION_SCRAPE && (b@.len() - 8) % 12 == 0),
            Some((t, s)) => {
                &&& b@.len() >= 8 && u32_at(b@, 0) == ACTION_SCRAPE
                &&& t == u32_at(b@, 4)
                &&& b@.len() == 8 + 12 * s@.len()
                &&& forall|k: int|
                    0 <= k < s@.len() ==> #[trigger] s@[k] == (
                        u32_at(b@, 8 + 12 * k) as i32,
                        u32_at(b@, 12 + 12 * k) as i32,
                        u32_at(b@, 16 + 12 * k) as i32,
                    )
            },
        },
{
    if b.len() < 8 || read_u32(b, 0) != ACTION_SCRAPE || (b.len() - 8) % 12 != 0 {
        return None;
    }
    let n = (b.len() - 8) / 12;
    let mut out: Vec<(i32, i32, i32)> = Vec::new();
    let mut k: usize = 0;
    while k < n
        invariant
            k <= n,
            b@.len() == 8 + 12 * n,
            b@.len() <= usize::MAX,
            out@.len() == k,
            forall|m: int|
                0 <= m < k ==> #[trigger] out@[m] == (
                    u32_at(b@, 8 + 12 * m) as i32,
                    u32_at(b@, 12 + 12 * m) as i32,
                    u32_at(b@, 16 + 12 * m) as i32,
                ),
        decreases n - k,
    {
        let off = 8 + 12 * k;
        out.push((read_u32(b, off) as i32, read_u32(b, off + 4) as i32, read_u32(b, off + 8) as i32));
        k = k + 1;
    }
    Some((read_u32(b, 4), out))
}

/// Serialising a scrape reply and parsing it gives back every count.
pub proof fn lemma_scrape_response_round_trip(transaction_id: u32, s: Seq<(i32, i32, i32)>, k: int)
    requires
        0 <= k < s.len(),
    ensures
        ({
            let b = spec_scrape_response(transaction_id, s);
            &&& u32_at(b, 0) == ACTION_SCRAPE
            &&& u32_at(b, 4) == transaction_id
            &&& b.len() == 8 + 12 * s.len()
            &&& (u32_at(b, 8 + 12 * k) as i32, u32_at(b, 12 + 12 * k) as i32, u32_at(b, 16 + 12 * k) as i32) == s[k]
        }),
{
    let b = spec_scrape_response(transaction_id, s);
    let e = s[k];
    lemma_stats_bytes_chunk(s, k);
    lemma_u32_round_trip(ACTION_SCRAPE);
    lemma_u32_round_trip(transaction_id);
    lemma_u32_round_trip(e.0 as u32);
    lemma_u32_round_trip(e.1 as u32);
    lemma_u32_round_trip(e.2 as u32);
    lemma_i32_round_trip(e.0);
    lemma_i32_round_trip(e.1);
    lemma_i32_round_trip(e.2);
    assert(b.subrange(0, 4) =~= be_of_u32(ACTION_SCRAPE));
    assert(b.subrange(4, 8) =~= be_of_u32(transaction_id));
    let c = spec_stats_bytes(s).subrange(12 * k, 12 * k + 12);
    assert(b.subrange(8 + 12 * k, 12 + 12 * k) =~= c.subrange(0, 4));
    assert(b.subrange(12 + 12 * k, 16 + 12 * k) =~= c.subrange(4, 8));
    assert(b.subrange(16 + 12 * k, 20 + 12 * k) =~= c.subrange(8, 12));
    assert(c.subrange(0, 4) =~= be_of_u32(e.0 as u32));
    assert(c.subrange(4, 8) =~= be_of_u32(e.1 as u32));
    assert(c.subrange(8, 12) =~= be_of_u32(e.2 as u32));
}

// ---------------------------------------------------------------- error

/// The wire form of an error reply: the message and a terminating zero.
pub open spec fn spec_error_response(transaction_id: u32, message: Seq<u8>) -> Seq<u8> {
    be_of_u32(ACTION_ERROR) + be_of_u32(transaction_id) + message + seq![0u8]
}

pub fn encode_error_response(transaction_id: u32, message: &[u8]) -> (r: Vec<u8>)
    ensures
        r@ == spec_error_response(transaction_id, message@),
{
    let mut out: Vec<u8> = Vec::new();
    push_u32(&mut out, ACTION_ERROR);
    push_u32(&mut out, transaction_id);
    push_all(&mut out, message);
    out.push(0);
    assert(out@ =~= spec_error_response(transaction_id, message@));
    out
}

/// The transaction id and message of an error reply.
pub fn parse_error_response(b: &[u8]) -> (r: Option<(u32, Vec<u8>)>)
    ensures
        match r {
            None => !(b@.len() >= 9 && u32_at(b@, 0) == ACTION_ERROR && b@.last() == 0),
            Some((t, m)) => b@.len() >= 9 && u32_at(b@, 0) == ACTION_ERROR && b@.last() == 0 && t
                == u32_at(b@, 4) && m@ == b@.subrange(8, b@.len() - 1),
        },
{
    let n = b.len();
    if n < 9 || read_u32(b, 0) != ACTION_ERROR || b[n - 1] != 0 {
        return None;
    }
    let mut m: Vec<u8> = Vec::new();
    let mut i: usize = 8;
    while i < n - 1
        invariant
            8 <= i <= n - 1,
            n == b@.len(),
            m@ == b@.subrange(8, i as int),
        decreases n - 1 - i,
    {
        m.push(b[i]);
        i = i + 1;
        assert(m@ =~= b@.subrange(8, i as int));
    }
    Some((read_u32(b, 4), m))
}

/// Serialising an error reply and parsing it gives back its transaction id
/// and message.
pub proof fn lemma_error_round_trip(transaction_id: u32, message: Seq<u8>)
    ensures
        ({
            let b = spec_error_response(transaction_id, message);
            &&& b.len() >= 9 && u32_at(b, 0) == ACTION_ERROR && b.last() == 0
            &&& u32_at(b, 4) == transaction_id
            &&& b.subrange(8, b.len() - 1) == message
        }),
{
    let b = spec_error_response(transaction_id, message);
    lemma_u32_round_trip(ACTION_ERROR);
    lemma_u32_round_trip(transaction_id);
    assert(b.subrange(0, 4) =~= be_of_u32(ACTION_ERROR));
    assert(b.subrange(4, 8) =~= be_of_u32(transaction_id));
    assert(b.subrange(8, b.len() - 1) =~= message);
}

} // verus!
