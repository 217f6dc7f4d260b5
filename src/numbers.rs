//! Decimal integers and IP addresses written as ASCII text.
use vstd::prelude::*;

use crate::addr::IpAddress;
use crate::bytes::be_of_u16;
use crate::query::{hex_value, is_hex, to_digit};

verus! {

pub const COLON: u8 = 0x3a;

pub open spec fn is_digit(b: u8) -> bool {
    0x30 <= b <= 0x39
}

pub open spec fn all_digits(s: Seq<u8>) -> bool {
    forall|i: int| 0 <= i < s.len() ==> is_digit(#[trigger] s[i])
}

/// The value of a string of decimal digits.
pub open spec fn digits_value(s: Seq<u8>) -> nat
    decreases s.len(),
{
    if s.len() == 0 {
        0
    } else {
        digits_value(s.drop_last()) * 10 + (s.last() - 0x30) as nat
    }
}

/// The integer that `s` spells: an optional `+` (or `-` where `signed`), then
/// one or more decimal digits, the value lying in `[lo, hi]`.
pub open spec fn spec_parse_int(s: Seq<u8>, signed: bool, lo: int, hi: int) -> Option<int> {
    let neg = signed && s.len() > 0 && s[0] == 0x2d;
    let d = if s.len() > 0 && (s[0] == 0x2b || neg) {
        s.skip(1)
    } else {
        s
    };
    if d.len() == 0 || !all_digits(d) {
        None
    } else {
        let v = if neg {
            -digits_value(d)
        } else {
            digits_value(d) as int
        };
        if lo <= v && v <= hi {
            Some(v)
        } else {
            None
        }
    }
}

pub proof fn lemma_digits_value_monotone(s: Seq<u8>, i: int)
    requires
        0 <= i <= s.len(),
        all_digits(s),
    ensures
        digits_value(s.subrange(0, i)) <= digits_value(s),
    decreases s.len() - i,
{
    if i < s.len() {
        lemma_digits_value_monotone(s, i + 1);
        assert(s.subrange(0, i + 1).drop_last() =~= s.subrange(0, i));
    } else {
        assert(s.subrange(0, i) =~= s);
    }
}

/// Parses a decimal integer in the way of Rust's `FromStr` for integers.
pub fn parse_integer(s: &[u8], signed: bool, lo: i128, hi: i128) -> (r: Option<i128>)
    requires
        -0x8000_0000_0000_0000 <= lo <= 0,
        0 <= hi <= 0xffff_ffff_ffff_ffff,
    ensures
        match r {
            Some(v) => spec_parse_int(s@, signed, lo as int, hi as int) == Some(v as int),
            None => spec_parse_int(s@, signed, lo as int, hi as int) is None,
        },
{
    let n = s.len();
    let neg = signed && n > 0 && s[0] == 0x2d;
    let start: usize = if n > 0 && (s[0] == 0x2b || neg) {
        1
    } else {
        0
    };
    let ghost d = if n > 0 && (s@[0] == 0x2b || neg) {
        s@.skip(1)
    } else {
        s@
    };
    assert(d =~= s@.subrange(start as int, n as int));
    if start == n {
        return None;
    }
    let limit: u128 = if neg {
        (0 - lo) as u128
    } else {
        hi as u128
    };
    let mut acc: u128 = 0;
    let mut i = start;
    while i < n
        invariant
            start <= i <= n == s@.len(),
            d =~= s@.subrange(start as int, n as int),
            neg == (signed && s@.len() > 0 && s@[0] == 0x2d),
            d == (if s@.len() > 0 && (s@[0] == 0x2b || neg) {
                s@.skip(1)
            } else {
                s@
            }),
            d.len() > 0,
            limit as int == (if neg {
                -lo
            } else {
                hi as int
            }),
            acc as int == digits_value(d.subrange(0, i - start)),
            acc <= limit,
            limit <= 0xffff_ffff_ffff_ffff,
            all_digits(d.subrange(0, i - start)),
        decreases n - i,
    {
        let b = s[i];
        if b < 0x30 || b > 0x39 {
            assert(!all_digits(d)) by {
                assert(d[i - start] == b);
            };
            assert(spec_parse_int(s@, signed, lo as int, hi as int) is None);
            return None;
        }
        proof {
            assert(d.subrange(0, i + 1 - start).drop_last() =~= d.subrange(0, i - start));
            assert(d.subrange(0, i + 1 - start).last() == b);
        }
        acc = acc * 10 + (b - 0x30) as u128;
        i = i + 1;
        if acc > limit {
            proof {
                if all_digits(d) {
                    lemma_digits_value_monotone(d, i - start);
                    assert(acc as int <= digits_value(d));
                    assert(limit as int == (if neg { -lo } else { hi as int }));
                }
            }
            assert(spec_parse_int(s@, signed, lo as int, hi as int) is None);
            return None;
        }
    }
    assert(d.subrange(0, n - start) =~= d);
    if neg {
        Some(0 - acc as i128)
    } else {
        Some(acc as i128)
    }
}

/// The octet that `s` spells as a part of a dotted-quad address: one to three
/// digits, no leading zero, at most 255.
pub open spec fn spec_octet(s: Seq<u8>) -> Option<u8> {
    if 1 <= s.len() <= 3 && all_digits(s) && !(s.len() > 1 && s[0] == 0x30) && digits_value(s)
        <= 255 {
        Some(digits_value(s) as u8)
    } else {
        None
    }
}

/// The index of the first `.` in `s` from `i` on, or the length of `s`.
pub open spec fn next_dot(s: Seq<u8>, i: int) -> int
    decreases s.len() - i,
{
    if i < 0 || i >= s.len() {
        s.len() as int
    } else if s[i] == 0x2e {
        i
    } else {
        next_dot(s, i + 1)
    }
}

/// The octets of the dotted-quad IPv4 address that `s` spells, as Rust's
/// `Ipv4Addr` parser reads it: four octets separated by single dots.
pub open spec fn spec_parse_ipv4(s: Seq<u8>) -> Option<Seq<u8>> {
    let e0 = next_dot(s, 0);
    let e1 = next_dot(s, e0 + 1);
    let e2 = next_dot(s, e1 + 1);
    if e2 >= s.len() || next_dot(s, e2 + 1) != s.len() {
        None
    } else {
        let o0 = spec_octet(s.subrange(0, e0));
        let o1 = spec_octet(s.subrange(e0 + 1, e1));
        let o2 = spec_octet(s.subrange(e1 + 1, e2));
        let o3 = spec_octet(s.subrange(e2 + 1, s.len() as int));
        if o0 is Some && o1 is Some && o2 is Some && o3 is Some {
            Some(seq![o0.unwrap(), o1.unwrap(), o2.unwrap(), o3.unwrap()])
        } else {
            None
        }
    }
}

pub proof fn lemma_next_dot(s: Seq<u8>, i: int)
    requires
        0 <= i,
    ensures
        next_dot(s, i) == s.len() || (i <= next_dot(s, i) < s.len() && s[next_dot(s, i)] == 0x2e),
        i <= s.len() ==> i <= next_dot(s, i),
    decreases s.len() - i,
{
    if i < s.len() && s[i] != 0x2e {
        lemma_next_dot(s, i + 1);
    }
}

fn find_dot(s: &[u8], i: usize) -> (r: usize)
    requires
        i <= s@.len(),
    ensures
        r as int == next_dot(s@, i as int),
{
    let mut j = i;
    while j < s.len()
        invariant
            i <= j <= s@.len(),
            next_dot(s@, i as int) == next_dot(s@, j as int),
        decreases s@.len() - j,
    {
        if s[j] == 0x2e {
            return j;
        }
        j = j + 1;
    }
    j
}

fn parse_octet(s: &[u8], start: usize, end: usize) -> (r: Option<u8>)
    requires
        start <= end <= s@.len(),
    ensures
        r == spec_octet(s@.subrange(start as int, end as int)),
{
    let ghost t = s@.subrange(start as int, end as int);
    if end - start < 1 || end - start > 3 {
        return None;
    }
    if end - start > 1 && s[start] == 0x30 {
        return None;
    }
    let mut v: u16 = 0;
    let mut i = start;
    while i < end
        invariant
            start <= i <= end <= s@.len(),
            end - start <= 3,
            t == s@.subrange(start as int, end as int),
            v as int == digits_value(t.subrange(0, i - start)),
            v < (if i - start == 0 {
                1int
            } else if i - start == 1 {
                10int
            } else if i - start == 2 {
                100int
            } else {
                1000int
            }),
            all_digits(t.subrange(0, i - start)),
        decreases end - i,
    {
        let b = s[i];
        if b < 0x30 || b > 0x39 {
            assert(t[i - start] == b);
            return None;
        }
        proof {
            assert(t.subrange(0, i + 1 - start).drop_last() =~= t.subrange(0, i - start));
            assert(t.subrange(0, i + 1 - start).last() == b);
            assert(i - start < 3);
        }
        v = v * 10 + (b - 0x30) as u16;
        i = i + 1;
    }
    assert(t.subrange(0, end - start) =~= t);
    if v > 255 {
        None
    } else {
        Some(v as u8)
    }
}

/// Parses a dotted-quad IPv4 address.
pub fn parse_ipv4(s: &[u8]) -> (r: Option<[u8; 4]>)
    ensures
        match r {
            Some(a) => spec_parse_ipv4(s@) == Some(a@),
            None => spec_parse_ipv4(s@) is None,
        },
{
    let n = s.len();
    proof {
        lemma_next_dot(s@, 0);
    }
    let e0 = find_dot(s, 0);
    if e0 >= n {
        return None;
    }
    proof {
        lemma_next_dot(s@, e0 + 1);
    }
    let e1 = find_dot(s, e0 + 1);
    if e1 >= n {
        return None;
    }
    proof {
        lemma_next_dot(s@, e1 + 1);
    }
    let e2 = find_dot(s, e1 + 1);
    if e2 >= n {
        return None;
    }
    proof {
        lemma_next_dot(s@, e2 + 1);
    }
    let e3 = find_dot(s, e2 + 1);
    if e3 != n {
        return None;
    }
    let o0 = parse_octet(s, 0, e0);
    let o1 = parse_octet(s, e0 + 1, e1);
    let o2 = parse_octet(s, e1 + 1, e2);
    let o3 = parse_octet(s, e2 + 1, n);
    match (o0, o1, o2, o3) {
        (Some(a), Some(b), Some(c), Some(d)) => {
            let r = [a, b, c, d];
            assert(r@ =~= seq![a, b, c, d]);
            Some(r)
        },
        _ => None,
    }
}

/// The value of a string of hexadecimal digits.
pub open spec fn hex_digits_value(s: Seq<u8>) -> nat
    decreases s.len(),
{
    if s.len() == 0 {
        0
    } else {
        hex_digits_value(s.drop_last()) * 16 + hex_value(s.last()) as nat
    }
}

/// The 16-bit group that `s` spells in an IPv6 address: one to four
/// hexadecimal digits.
pub open spec fn spec_hex_group(s: Seq<u8>) -> Option<u16> {
    if 1 <= s.len() <= 4 && (forall|i: int| 0 <= i < s.len() ==> is_hex(#[trigger] s[i])) {
        Some(hex_digits_value(s) as u16)
    } else {
        None
    }
}

/// The index of the first `:` in `s` from `i` on, or the length of `s`.
pub open spec fn next_colon(s: Seq<u8>, i: int) -> int
    decreases s.len() - i,
{
    if i < 0 || i >= s.len() {
        s.len() as int
    } else if s[i] == COLON {
        i
    } else {
        next_colon(s, i + 1)
    }
}

/// The index of the first `::` in `s` from `i` on, or -1.
pub open spec fn find_double_colon(s: Seq<u8>, i: int) -> int
    decreases s.len() - i,
{
    if i < 0 || i + 1 >= s.len() {
        -1
    } else if s[i] == COLON && s[i + 1] == COLON {
        i
    } else {
        find_double_colon(s, i + 1)
    }
}

/// The bytes that the colon-separated groups of `s[i..end]` stand for, two
/// for each group; where `v4` allows it the last one may be a dotted-quad
/// IPv4 address, four bytes.
pub open spec fn region_bytes(s: Seq<u8>, i: int, end: int, v4: bool) -> Option<Seq<u8>>
    decreases end - i,
{
    if i < 0 || i > end || end > s.len() {
        None
    } else {
        let c = next_colon(s, i);
        let e = if c < i || c >= end {
            end
        } else {
            c
        };
        let seg = s.subrange(i, e);
        if e >= end {
            if v4 && spec_parse_ipv4(seg) is Some {
                spec_parse_ipv4(seg)
            } else {
                match spec_hex_group(seg) {
                    Some(g) => Some(be_of_u16(g)),
                    None => None,
                }
            }
        } else {
            match spec_hex_group(seg) {
                None => None,
                Some(g) => match region_bytes(s, e + 1, end, v4) {
                    None => None,
                    Some(r) => Some(be_of_u16(g) + r),
                },
            }
        }
    }
}

/// The sixteen bytes of the IPv6 address that `s` spells, as Rust's
/// `Ipv6Addr` parser reads it: eight groups, or fewer around one `::` that
/// stands for zeros; the last 32 bits may be written as an IPv4 address.
pub open spec fn spec_parse_ipv6(s: Seq<u8>) -> Option<Seq<u8>> {
    let d = find_double_colon(s, 0);
    if d < 0 {
        match region_bytes(s, 0, s.len() as int, true) {
            Some(b) => if b.len() == 16 {
                Some(b)
            } else {
                None
            },
            None => None,
        }
    } else {
        let head = if d == 0 {
            Some(Seq::<u8>::empty())
        } else {
            region_bytes(s, 0, d, false)
        };
        let tail = if d + 2 == s.len() {
            Some(Seq::<u8>::empty())
        } else {
            region_bytes(s, d + 2, s.len() as int, true)
        };
        match (head, tail) {
            (Some(h), Some(t)) => if h.len() + t.len() <= 14 {
                Some(h + Seq::new((16 - h.len() - t.len()) as nat, |i: int| 0u8) + t)
            } else {
                None
            },
            _ => None,
        }
    }
}

fn hex_group(s: &[u8], start: usize, end: usize) -> (r: Option<u16>)
    requires
        start <= end <= s@.len(),
    ensures
        r == spec_hex_group(s@.subrange(start as int, end as int)),
{
    let ghost t = s@.subrange(start as int, end as int);
    if end - start < 1 || end - start > 4 {
        return None;
    }
    let mut v: u32 = 0;
    let mut i = start;
    while i < end
        invariant
            start <= i <= end <= s@.len(),
            end - start <= 4,
            t == s@.subrange(start as int, end as int),
            v as int == hex_digits_value(t.subrange(0, i - start)),
            v < (if i - start == 0 {
                1int
            } else if i - start == 1 {
                16int
            } else if i - start == 2 {
                256int
            } else if i - start == 3 {
                4096int
            } else {
                65536int
            }),
            forall|j: int| 0 <= j < i - start ==> is_hex(#[trigger] t[j]),
        decreases end - i,
    {
        let d = match to_digit(s[i]) {
            Some(d) => d,
            None => {
                assert(!is_hex(t[i - start]));
                return None;
            },
        };
        proof {
            assert(t.subrange(0, i + 1 - start).drop_last() =~= t.subrange(0, i - start));
            assert(t.subrange(0, i + 1 - start).last() == s@[i as int]);
        }
        v = v * 16 + d as u32;
        i = i + 1;
    }
    assert(t.subrange(0, end - start) =~= t);
    Some(v as u16)
}

fn find_colon(s: &[u8], i: usize) -> (r: usize)
    requires
        i <= s@.len(),
    ensures
        r as int == next_colon(s@, i as int),
{
    let mut j = i;
    while j < s.len()
        invariant
            i <= j <= s@.len(),
            next_colon(s@, i as int) == next_colon(s@, j as int),
        decreases s@.len() - j,
    {
        if s[j] == COLON {
            return j;
        }
        j = j + 1;
    }
    j
}

pub proof fn lemma_next_colon(s: Seq<u8>, i: int)
    requires
        0 <= i <= s.len(),
    ensures
        i <= next_colon(s, i) <= s.len(),
        next_colon(s, i) < s.len() ==> s[next_colon(s, i)] == COLON,
    decreases s.len() - i,
{
    if i < s.len() && s[i] != COLON {
        lemma_next_colon(s, i + 1);
    }
}

fn double_colon(s: &[u8]) -> (r: Option<usize>)
    ensures
        match r {
            Some(d) => find_double_colon(s@, 0) == d as int && d + 2 <= s@.len(),
            None => find_double_colon(s@, 0) < 0,
        },
{
    let n = s.len();
    let mut i: usize = 0;
    while n > 0 && i < n - 1
        invariant
            n == s@.len(),
            find_double_colon(s@, 0) == find_double_colon(s@, i as int),
        decreases n - i,
    {
        if s[i] == COLON && s[i + 1] == COLON {
            return Some(i);
        }
        i = i + 1;
    }
    None
}

fn region(s: &[u8], start: usize, end: usize, v4: bool) -> (r: Option<Vec<u8>>)
    requires
        start <= end <= s@.len(),
    ensures
        match r {
            Some(b) => region_bytes(s@, start as int, end as int, v4) == Some(b@),
            None => region_bytes(s@, start as int, end as int, v4) is None,
        },
{
    let mut acc: Vec<u8> = Vec::new();
    let mut i = start;
    loop
        invariant
            start <= i <= end <= s@.len(),
            region_bytes(s@, start as int, end as int, v4) == (match region_bytes(s@, i as int, end as int, v4) {
                Some(rest) => Some(acc@ + rest),
                None => None::<Seq<u8>>,
            }),
        decreases end - i,
    {
        proof {
            lemma_next_colon(s@, i as int);
        }
        let c = find_colon(s, i);
        let e = if c < end {
            c
        } else {
            end
        };
        if e >= end {
            let seg = crate::udp::wire::slice_from(s, i);
            let (seg, _) = seg.split_at(end - i);
            assert(seg@ =~= s@.subrange(i as int, end as int));
            if v4 {
                if let Some(a) = parse_ipv4(seg) {
                    let mut out = acc;
                    crate::bytes::push_all(&mut out, a.as_slice());
                    return Some(out);
                }
            }
            return match hex_group(s, i, end) {
                Some(g) => {
                    let mut out = acc;
                    crate::bytes::push_u16(&mut out, g);
                    Some(out)
                },
                None => None,
            };
        }
        match hex_group(s, i, e) {
            None => return None,
            Some(g) => {
                let ghost before = acc@;
                crate::bytes::push_u16(&mut acc, g);
                proof {
                    match region_bytes(s@, e + 1, end as int, v4) {
                        Some(rest) => {
                            assert(before + (be_of_u16(g) + rest) =~= acc@ + rest);
                        },
                        None => {},
                    }
                }
                i = e + 1;
            },
        }
    }
}

/// Parses a textual IPv6 address.
pub fn parse_ipv6(s: &[u8]) -> (r: Option<[u8; 16]>)
    ensures
        match r {
            Some(a) => spec_parse_ipv6(s@) == Some(a@),
            None => spec_parse_ipv6(s@) is None,
        },
{
    let n = s.len();
    let bytes = match double_colon(s) {
        None => match region(s, 0, n, true) {
            Some(b) => {
                if b.len() != 16 {
                    return None;
                }
                b
            },
            None => return None,
        },
        Some(d) => {
            let head = if d == 0 {
                let v: Vec<u8> = Vec::new();
                v
            } else {
                match region(s, 0, d, false) {
                    Some(h) => h,
                    None => return None,
                }
            };
            let tail = if d + 2 == n {
                let v: Vec<u8> = Vec::new();
                v
            } else {
                match region(s, d + 2, n, true) {
                    Some(t) => t,
                    None => return None,
                }
            };
            if head.len() > 14 || tail.len() > 14 - head.len() {
                return None;
            }
            let mut out = head;
            let zeros = 16 - out.len() - tail.len();
            let ghost h = out@;
            let mut k: usize = 0;
            while k < zeros
                invariant
                    k <= zeros,
                    out@ == h + Seq::new(k as nat, |i: int| 0u8),
                decreases zeros - k,
            {
                out.push(0);
                k = k + 1;
                assert(out@ =~= h + Seq::new(k as nat, |i: int| 0u8));
            }
            crate::bytes::push_all(&mut out, tail.as_slice());
            assert(out@ == spec_parse_ipv6(s@).unwrap());
            out
        },
    };
    let mut a = [0u8; 16];
    let mut i: usize = 0;
    while i < 16
        invariant
            i <= 16,
            bytes@.len() == 16,
            forall|j: int| 0 <= j < i ==> a@[j] == bytes@[j],
        decreases 16 - i,
    {
        a[i] = bytes[i];
        i = i + 1;
    }
    assert(a@ =~= bytes@);
    Some(a)
}

/// The address that `s` spells: IPv4 where it is a dotted quad, else IPv6.
/// Host names are not addresses.
pub open spec fn spec_parse_ip(s: Seq<u8>) -> Option<IpAddress> {
    match spec_parse_ipv4(s) {
        Some(a) => Some(IpAddress::V4([a[0], a[1], a[2], a[3]])),
        None => match spec_parse_ipv6(s) {
            Some(a) => Some(
                IpAddress::V6(
                    [a[0], a[1], a[2], a[3], a[4], a[5], a[6], a[7], a[8], a[9], a[10], a[11], a[12], a[13], a[14], a[15]],
                ),
            ),
            None => None,
        },
    }
}

/// Parses a textual IP address, as Rust's `IpAddr` parser does.
pub fn parse_ip(s: &[u8]) -> (r: Option<IpAddress>)
    ensures
        r == spec_parse_ip(s@),
{
    if let Some(a) = parse_ipv4(s) {
        assert(a =~= [a@[0], a@[1], a@[2], a@[3]]);
        return Some(IpAddress::V4(a));
    }
    match parse_ipv6(s) {
        Some(a) => {
            assert(a =~= [a@[0], a@[1], a@[2], a@[3], a@[4], a@[5], a@[6], a@[7], a@[8], a@[9], a@[10], a@[11], a@[12], a@[13], a@[14], a@[15]]);
            Some(IpAddress::V6(a))
        },
        None => None,
    }
}

} // verus!
