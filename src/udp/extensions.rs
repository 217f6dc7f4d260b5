//! The extension records that may follow an announce request (BEP 41): the
//! URL-data records form a request string, `/announce` and an optional query.
use vstd::prelude::*;

use crate::error::Error;
use crate::params::{MAX_KEY_LEN, MAX_VALUE_LEN};
use crate::query::{hex_value, is_hex, query_pairs, QueryParser, PERCENT};
use crate::tracker::{params_view, ExtensionParams};

verus! {

pub const OPTION_TYPE_END: u8 = 0;

pub const OPTION_TYPE_URLDATA: u8 = 2;

pub const SLASH: u8 = 0x2f;

pub const QUESTION: u8 = 0x3f;

/// The bytes of `announce`.
pub open spec fn announce_word() -> Seq<u8> {
    seq![97u8, 110, 110, 111, 117, 110, 99, 101]
}

/// The concatenated payloads of the URL-data records of `b` from `i` on. A
/// record with type 0 ends the chain, type 1 is one byte of padding, and any
/// other type has a length byte and a payload; a record cut short ends the
/// chain too. Only type 2 carries URL data.
pub open spec fn url_data(b: Seq<u8>, i: int) -> Seq<u8>
    decreases b.len() - i,
{
    if i < 0 || i >= b.len() {
        seq![]
    } else if b[i] >= OPTION_TYPE_URLDATA {
        if i + 1 >= b.len() {
            seq![]
        } else if b[i + 1] == 0 {
            url_data(b, i + 2)
        } else if i + 2 + b[i + 1] > b.len() {
            seq![]
        } else {
            let rest = url_data(b, i + 2 + b[i + 1]);
            if b[i] == OPTION_TYPE_URLDATA {
                b.subrange(i + 2, i + 2 + b[i + 1]) + rest
            } else {
                rest
            }
        }
    } else if b[i] == OPTION_TYPE_END {
        seq![]
    } else {
        url_data(b, i + 1)
    }
}

/// The position after `announce[k..]` in `u` from `p` on, a letter being
/// given as itself or as `%` and two hexadecimal digits.
pub open spec fn match_announce(u: Seq<u8>, p: int, k: int) -> Option<int>
    decreases 8 - k,
{
    if k < 0 || k >= 8 {
        Some(p)
    } else if p < 0 || p >= u.len() {
        None
    } else if u[p] == PERCENT {
        if p + 3 <= u.len() && is_hex(u[p + 1]) && is_hex(u[p + 2]) && (hex_value(u[p + 1]) * 16
            + hex_value(u[p + 2])) as u8 == announce_word()[k] {
            match_announce(u, p + 3, k + 1)
        } else {
            None
        }
    } else if u[p] == announce_word()[k] {
        match_announce(u, p + 1, k + 1)
    } else {
        None
    }
}

/// Whether every key and value of `pairs` fits the parser's limits.
pub open spec fn pairs_fit(pairs: Seq<(Seq<u8>, Seq<u8>)>) -> bool {
    forall|i: int|
        0 <= i < pairs.len() ==> (#[trigger] pairs[i]).0.len() <= MAX_KEY_LEN && pairs[i].1.len()
            <= MAX_VALUE_LEN
}

/// What the extension records `b` of an announce yield: the pairs of the
/// query of the request string, none where there is no request string, or
/// an error where the path is not `/announce` or a pair is too long.
pub open spec fn spec_parse_extensions(b: Seq<u8>) -> Result<Seq<(Seq<u8>, Seq<u8>)>, Error> {
    let u = url_data(b, 0);
    if b.len() == 0 || b[0] == OPTION_TYPE_END || u.len() == 0 {
        Ok(seq![])
    } else if u[0] != SLASH {
        Err(Error::InvalidAnnounceUrl)
    } else {
        match match_announce(u, 1, 0) {
            None => Err(Error::InvalidAnnounceUrl),
            Some(p) => if p >= u.len() {
                Ok(seq![])
            } else if u[p] != QUESTION {
                Err(Error::InvalidAnnounceUrl)
            } else {
                let pairs = query_pairs(u.subrange(p + 1, u.len() as int), 0);
                if pairs_fit(pairs) {
                    Ok(pairs)
                } else {
                    Err(Error::InvalidParams)
                }
            },
        }
    }
}

/// Gathers the URL data of the extension records `b`.
pub fn collect_url_data(b: &[u8]) -> (r: Vec<u8>)
    ensures
        r@ == url_data(b@, 0),
{
    let n = b.len();
    let mut out: Vec<u8> = Vec::new();
    let mut i: usize = 0;
    while i < n
        invariant
            n == b@.len(),
            i <= n + 2,
            url_data(b@, 0) == out@ + url_data(b@, i as int),
        decreases n + 2 - i,
    {
        let t = b[i];
        if t >= OPTION_TYPE_URLDATA {
            if i + 1 >= n {
                assert(url_data(b@, i as int) =~= seq![]);
                assert(out@ + seq![] =~= out@);
                return out;
            }
            let len = b[i + 1] as usize;
            if len == 0 {
                i = i + 2;
            } else if len > n - (i + 2) {
                assert(out@ + seq![] =~= out@);
                return out;
            } else {
                if t == OPTION_TYPE_URLDATA {
                    let mut j = i + 2;
                    let ghost before = out@;
                    while j < i + 2 + len
                        invariant
                            i + 2 <= j <= i + 2 + len <= n,
                            n == b@.len(),
                            out@ == before + b@.subrange(i + 2, j as int),
                        decreases i + 2 + len - j,
                    {
                        out.push(b[j]);
                        j = j + 1;
                        assert(out@ =~= before + b@.subrange(i + 2, j as int));
                    }
                    assert(before + (b@.subrange(i + 2, i + 2 + len) + url_data(b@, (i + 2 + len) as int))
                        =~= out@ + url_data(b@, (i + 2 + len) as int));
                }
                i = i + 2 + len;
            }
        } else if t == OPTION_TYPE_END {
            assert(out@ + seq![] =~= out@);
            return out;
        } else {
            i = i + 1;
        }
    }
    assert(url_data(b@, i as int) =~= seq![]);
    assert(out@ + seq![] =~= out@);
    out
}

/// The position after `/announce` in `u`, if the request string starts so.
fn announce_end(u: &[u8]) -> (r: Option<usize>)
    requires
        u@.len() > 0,
        u@[0] == SLASH,
    ensures
        match r {
            Some(p) => match_announce(u@, 1, 0) == Some(p as int) && p <= u@.len(),
            None => match_announce(u@, 1, 0) is None,
        },
{
    let word: [u8; 8] = [97, 110, 110, 111, 117, 110, 99, 101];
    assert(word@ =~= announce_word());
    let n = u.len();
    let mut p: usize = 1;
    let mut k: usize = 0;
    while k < 8
        invariant
            k <= 8,
            1 <= p <= n,
            n == u@.len(),
            word@ == announce_word(),
            match_announce(u@, 1, 0) == match_announce(u@, p as int, k as int),
        decreases 8 - k,
    {
        if p >= n {
            return None;
        }
        let c = u[p];
        if c == PERCENT {
            let d = crate::query::decode_percent_byte(u, p + 1);
            match d {
                Some(v) => {
                    if p + 3 > n || v != word[k] {
                        return None;
                    }
                    p = p + 3;
                },
                None => return None,
            }
        } else if c == word[k] {
            p = p + 1;
        } else {
            return None;
        }
        k = k + 1;
    }
    Some(p)
}

/// Reads the extension records that follow an announce request: the pairs
/// of the query of its request string, for the tracker's extension.
pub fn parse_extensions(b: &[u8]) -> (r: Result<ExtensionParams, Error>)
    ensures
        match spec_parse_extensions(b@) {
            Ok(pairs) => r is Ok && params_view(r.unwrap()) == pairs,
            Err(e) => r == Err::<ExtensionParams, Error>(e),
        },
{
    let u = collect_url_data(b);
    if b.len() == 0 || b[0] == OPTION_TYPE_END || u.len() == 0 {
        let v: ExtensionParams = Vec::new();
        assert(params_view(v) =~= Seq::<(Seq<u8>, Seq<u8>)>::empty());
        return Ok(v);
    }
    if u[0] != SLASH {
        return Err(Error::InvalidAnnounceUrl);
    }
    let p = match announce_end(u.as_slice()) {
        Some(p) => p,
        None => return Err(Error::InvalidAnnounceUrl),
    };
    if p >= u.len() {
        let v: ExtensionParams = Vec::new();
        assert(params_view(v) =~= Seq::<(Seq<u8>, Seq<u8>)>::empty());
        return Ok(v);
    }
    if u[p] != QUESTION {
        return Err(Error::InvalidAnnounceUrl);
    }
    let mut query: Vec<u8> = Vec::new();
    crate::bytes::push_all(&mut query, crate::udp::wire::slice_from(u.as_slice(), p + 1));
    let ghost all = query_pairs(query@, 0);
    assert(query@ =~= u@.subrange(p + 1, u@.len() as int));
    let mut q = QueryParser::new(query);
    let mut out: ExtensionParams = Vec::new();
    let mut fits = true;
    let ghost mut done: int = 0;
    loop
        invariant_except_break
            q.wf(),
            q.pos() <= q.input().len(),
            0 <= done <= all.len(),
            q.remaining() == all.skip(done),
            params_view(out) == all.subrange(0, done),
            fits == pairs_fit(all.subrange(0, done)),
        invariant
            p < u@.len(),
            all == query_pairs(u@.subrange(p + 1, u@.len() as int), 0),
        ensures
            params_view(out) == all,
            fits == pairs_fit(all),
        decreases q.input().len() - q.pos(),
    {
        let ghost rest = all.skip(done);
        match q.next() {
            Some((k, v)) => {
                proof {
                    assert(rest[0] == (k@, v@));
                    assert(rest.skip(1) =~= all.skip(done + 1));
                    assert(all[done] == (k@, v@));
                }
                if k.len() > MAX_KEY_LEN || v.len() > MAX_VALUE_LEN {
                    fits = false;
                }
                out.push((k, v));
                proof {
                    let pre = all.subrange(0, done);
                    let next = all.subrange(0, done + 1);
                    assert(next =~= pre.push(all[done]));
                    assert(params_view(out) =~= next);
                    if pairs_fit(next) {
                        assert(next[done] == all[done]);
                        assert forall|i: int| 0 <= i < pre.len() implies (#[trigger] pre[i]).0.len()
                            <= MAX_KEY_LEN && pre[i].1.len() <= MAX_VALUE_LEN by {
                            assert(pre[i] == next[i]);
                        }
                    }
                    if pairs_fit(pre) && k@.len() <= MAX_KEY_LEN && v@.len() <= MAX_VALUE_LEN {
                        assert forall|i: int| 0 <= i < next.len() implies (#[trigger] next[i]).0.len()
                            <= MAX_KEY_LEN && next[i].1.len() <= MAX_VALUE_LEN by {
                            if i < pre.len() {
                                assert(pre[i] == next[i]);
                            }
                        }
                    }
                    done = done + 1;
                }
            },
            None => {
                assert(rest =~= Seq::<(Seq<u8>, Seq<u8>)>::empty());
                assert(all.subrange(0, done) =~= all);
                break;
            },
        }
    }
    if !fits {
        return Err(Error::InvalidParams);
    }
    Ok(out)
}

} // verus!
