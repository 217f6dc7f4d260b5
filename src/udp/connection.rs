//! Connection ids: the handshake token that ties requests to the address
//! that asked for it, inside a two-minute window.
use vstd::prelude::*;

use crate::addr::{spec_ip_octets, IpAddress};
use crate::bytes::{be_of_u64, push_all, push_u64};
use crate::digest::{sha256, sha256_of};

verus! {

/// The length of a connection-id window, in seconds.
pub const WINDOW_SECS: u64 = 120;

/// The window that the wall-clock second `now` falls in.
pub open spec fn spec_window(now: u64) -> u64 {
    now / WINDOW_SECS
}

/// The connection id for `ip` in `window`: the first eight bytes of the
/// SHA-256 digest of the secret, the big-endian window and the sixteen bytes
/// of the address.
pub open spec fn spec_connection_id(secret: Seq<u8>, window: u64, ip: IpAddress) -> Seq<u8> {
    sha256_of(secret + be_of_u64(window) + spec_ip_octets(ip)).subrange(0, 8)
}

/// Whether `id` is accepted from `ip` at `now`: it is the id of the current
/// window or of the one before.
pub open spec fn spec_verify(secret: Seq<u8>, now: u64, ip: IpAddress, id: Seq<u8>) -> bool {
    let w = spec_window(now);
    id == spec_connection_id(secret, w, ip) || (w > 0 && id == spec_connection_id(secret, (w - 1) as u64, ip))
}

/// The window that the wall-clock second `now` falls in.
pub fn two_min_window(now: u64) -> (r: u64)
    ensures
        r == spec_window(now),
{
    now / WINDOW_SECS
}

/// The connection id for `ip` in `window`.
pub fn make_connection_id(secret: &[u8; 8], window: u64, ip: &IpAddress) -> (r: [u8; 8])
    ensures
        r@ == spec_connection_id(secret@, window, *ip),
{
    let mut data: Vec<u8> = Vec::new();
    push_all(&mut data, secret.as_slice());
    push_u64(&mut data, window);
    let octets = ip.octets16();
    push_all(&mut data, octets.as_slice());
    assert(data@ =~= secret@ + be_of_u64(window) + spec_ip_octets(*ip));
    let digest = sha256(data.as_slice());
    let mut r = [0u8; 8];
    let mut i: usize = 0;
    while i < 8
        invariant
            i <= 8,
            digest@.len() == 32,
            forall|j: int| 0 <= j < i ==> r@[j] == digest@[j],
        decreases 8 - i,
    {
        r[i] = digest[i];
        i = i + 1;
    }
    assert(r@ =~= digest@.subrange(0, 8));
    r
}

/// The connection id that a client connecting from `ip` at `now` gets.
pub fn connection_id(secret: &[u8; 8], now: u64, ip: &IpAddress) -> (r: [u8; 8])
    ensures
        r@ == spec_connection_id(secret@, spec_window(now), *ip),
{
    make_connection_id(secret, two_min_window(now), ip)
}

/// Whether the connection id `id` is accepted from `ip` at `now`.
pub fn verify_connection_id(secret: &[u8; 8], now: u64, ip: &IpAddress, id: &[u8; 8]) -> (r: bool)
    ensures
        r == spec_verify(secret@, now, *ip, id@),
{
    let w = two_min_window(now);
    let current = make_connection_id(secret, w, ip);
    if crate::addr::bytes_eq(id.as_slice(), current.as_slice()) {
        return true;
    }
    if w == 0 {
        return false;
    }
    let previous = make_connection_id(secret, w - 1, ip);
    crate::addr::bytes_eq(id.as_slice(), previous.as_slice())
}

/// A connection id issued at `t` is accepted from the same address at any
/// time from `t` to `t + 120` seconds.
pub proof fn lemma_connection_id_lifetime(secret: Seq<u8>, ip: IpAddress, t: u64, later: u64)
    requires
        t <= later <= t + WINDOW_SECS,
    ensures
        spec_verify(secret, later, ip, spec_connection_id(secret, spec_window(t), ip)),
{
    assert(later / 120 == t / 120 || later / 120 == t / 120 + 1) by (nonlinear_arith)
        requires
            t <= later <= t + 120,
    ;
}

} // verus!
