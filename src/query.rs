//! A binary-safe parser for `application/x-www-form-urlencoded` query strings.
//!
//! Keys and values may hold any byte: `%XX` decodes to the raw byte and `+`
//! to a space. Keys end at `=` or `&`, values at `&`.
use vstd::prelude::*;

verus! {

pub const AMP: u8 = 0x26;

pub const EQ: u8 = 0x3d;

pub const PERCENT: u8 = 0x25;

pub const PLUS: u8 = 0x2b;

pub const SPACE: u8 = 0x20;

/// Whether `b` is an ASCII hexadecimal digit, in either case.
pub open spec fn is_hex(b: u8) -> bool {
    (0x30 <= b <= 0x39) || (0x61 <= b <= 0x66) || (0x41 <= b <= 0x46)
}

/// The value of a hexadecimal digit.
pub open spec fn hex_value(b: u8) -> u8 {
    if 0x30 <= b <= 0x39 {
        (b - 0x30) as u8
    } else if 0x61 <= b <= 0x66 {
        (b - 0x61 + 10) as u8
    } else {
        (b - 0x41 + 10) as u8
    }
}

/// Percent-decoding of a byte string: `%` with two hexadecimal digits is the
/// byte they spell, `+` is a space, and every other byte (a `%` without two
/// digits after it too) stands for itself.
pub open spec fn url_decode(s: Seq<u8>) -> Seq<u8>
    decreases s.len(),
{
    if s.len() == 0 {
        seq![]
    } else if s[0] == PERCENT && s.len() >= 3 && is_hex(s[1]) && is_hex(s[2]) {
        seq![(hex_value(s[1]) * 16 + hex_value(s[2])) as u8] + url_decode(s.skip(3))
    } else if s[0] == PLUS {
        seq![SPACE] + url_decode(s.skip(1))
    } else {
        seq![s[0]] + url_decode(s.skip(1))
    }
}

/// The first index from `i` on that holds `&` (or `=`, unless `amp_only`), or
/// the length of `s` where there is none.
pub open spec fn scan_until(s: Seq<u8>, i: int, amp_only: bool) -> int
    decreases s.len() - i,
{
    if i < 0 || i >= s.len() {
        s.len() as int
    } else if s[i] == AMP || (!amp_only && s[i] == EQ) {
        i
    } else {
        scan_until(s, i + 1, amp_only)
    }
}

/// One step of the parser on `s` at `pos`: the decoded pair found there, if
/// any, and the position after it.
pub open spec fn query_step(s: Seq<u8>, pos: int) -> (Option<(Seq<u8>, Seq<u8>)>, int) {
    let k = scan_until(s, pos, false);
    if k >= s.len() {
        (None, s.len() as int)
    } else if s[k] == AMP {
        (Some((url_decode(s.subrange(pos, k)), seq![])), k + 1)
    } else {
        let e = scan_until(s, k + 1, true);
        (
            Some((url_decode(s.subrange(pos, k)), url_decode(s.subrange(k + 1, e)))),
            if e >= s.len() {
                s.len() as int
            } else {
                e + 1
            },
        )
    }
}

/// Every pair that the parser yields on `s` from `pos` on, in order. A
/// trailing key without `=` is not a pair.
pub open spec fn query_pairs(s: Seq<u8>, pos: int) -> Seq<(Seq<u8>, Seq<u8>)>
    decreases s.len() - pos,
{
    if pos < 0 || pos >= s.len() {
        seq![]
    } else {
        let (p, next) = query_step(s, pos);
        match p {
            None => seq![],
            Some(p) => if next > pos {
                seq![p] + query_pairs(s, next)
            } else {
                seq![]
            },
        }
    }
}

pub proof fn lemma_scan_bounds(s: Seq<u8>, i: int, amp_only: bool)
    requires
        0 <= i,
    ensures
        i <= scan_until(s, i, amp_only) <= s.len() || (i > s.len() && scan_until(s, i, amp_only)
            == s.len()),
        scan_until(s, i, amp_only) < s.len() ==> (s[scan_until(s, i, amp_only)] == AMP || (
        !amp_only && s[scan_until(s, i, amp_only)] == EQ)),
    decreases s.len() - i,
{
    if i < s.len() && !(s[i] == AMP || (!amp_only && s[i] == EQ)) {
        lemma_scan_bounds(s, i + 1, amp_only);
    }
}

/// A step from inside the input moves forward, and never past its end.
pub proof fn lemma_step_advances(s: Seq<u8>, pos: int)
    requires
        0 <= pos < s.len(),
    ensures
        pos < query_step(s, pos).1 <= s.len(),
{
    lemma_scan_bounds(s, pos, false);
    let k = scan_until(s, pos, false);
    if k < s.len() && s[k] != AMP {
        lemma_scan_bounds(s, k + 1, true);
    }
}

/// The value of `b` as a hexadecimal digit, if it is one.
pub fn to_digit(b: u8) -> (r: Option<u8>)
    ensures
        r == (if is_hex(b) {
            Some(hex_value(b))
        } else {
            None
        }),
{
    if 0x30 <= b && b <= 0x39 {
        Some(b - 0x30)
    } else if 0x61 <= b && b <= 0x66 {
        Some(b - 0x61 + 10)
    } else if 0x41 <= b && b <= 0x46 {
        Some(b - 0x41 + 10)
    } else {
        None
    }
}

/// The byte that the two hexadecimal digits at `i` spell, if both are digits.
pub fn decode_percent_byte(s: &[u8], i: usize) -> (r: Option<u8>)
    requires
        i <= s@.len(),
    ensures
        r == (if i + 2 <= s@.len() && is_hex(s@[i as int]) && is_hex(s@[i + 1]) {
            Some((hex_value(s@[i as int]) * 16 + hex_value(s@[i + 1])) as u8)
        } else {
            None
        }),
{
    if s.len() - i < 2 {
        return None;
    }
    match (to_digit(s[i]), to_digit(s[i + 1])) {
        (Some(h), Some(l)) => {
            assert(h < 16 && l < 16);
            Some(h * 16 + l)
        },
        _ => None,
    }
}

/// Percent-decodes `s[start..end]`.
pub fn decode(s: &[u8], start: usize, end: usize) -> (r: Vec<u8>)
    requires
        start <= end <= s@.len(),
    ensures
        r@ == url_decode(s@.subrange(start as int, end as int)),
{
    let mut out: Vec<u8> = Vec::new();
    let mut i = start;
    while i < end
        invariant
            start <= i <= end <= s@.len(),
            url_decode(s@.subrange(start as int, end as int)) == out@ + url_decode(
                s@.subrange(i as int, end as int),
            ),
        decreases end - i,
    {
        let t = Ghost(s@.subrange(i as int, end as int));
        let b = s[i];
        let mut step: usize = 1;
        let mut decoded = b;
        if b == PERCENT {
            let sub = decode_percent_byte(s, i + 1);
            if end - i >= 3 {
                if let Some(v) = sub {
                    decoded = v;
                    step = 3;
                }
            }
        } else if b == PLUS {
            decoded = SPACE;
        }
        assert(t@.skip(step as int) =~= s@.subrange(i + step, end as int));
        out.push(decoded);
        i = i + step;
        assert(out@ + url_decode(s@.subrange(i as int, end as int)) =~= out@.drop_last() + (seq![
            decoded,
        ] + url_decode(t@.skip(step as int))));
    }
    assert(url_decode(s@.subrange(i as int, end as int)) =~= seq![]);
    assert(out@ + seq![] =~= out@);
    out
}

/// The index of the first `&` (or `=`, unless `amp_only`) in `s` from `i` on,
/// or the length of `s`.
pub fn find_separator(s: &[u8], i: usize, amp_only: bool) -> (r: usize)
    requires
        i <= s@.len(),
    ensures
        r as int == scan_until(s@, i as int, amp_only),
{
    let mut j = i;
    while j < s.len()
        invariant
            i <= j <= s@.len(),
            scan_until(s@, i as int, amp_only) == scan_until(s@, j as int, amp_only),
        decreases s@.len() - j,
    {
        if s[j] == AMP || (!amp_only && s[j] == EQ) {
            return j;
        }
        j = j + 1;
    }
    j
}

/// A query string parser that yields decoded key/value pairs one by one.
pub struct QueryParser {
    input: Vec<u8>,
    pos: usize,
}

impl QueryParser {
    /// The bytes being parsed.
    pub closed spec fn input(&self) -> Seq<u8> {
        self.input@
    }

    /// The position of the next unread byte.
    pub closed spec fn pos(&self) -> int {
        self.pos as int
    }

    pub closed spec fn wf(&self) -> bool {
        self.pos <= self.input@.len()
    }

    /// The pairs that are left to yield.
    pub open spec fn remaining(&self) -> Seq<(Seq<u8>, Seq<u8>)> {
        query_pairs(self.input(), self.pos())
    }

    /// A parser at the start of `input`.
    pub fn new(input: Vec<u8>) -> (r: Self)
        ensures
            r.wf(),
            r.pos() <= r.input().len(),
            r.input() == input@,
            r.pos() == 0,
    {
        QueryParser { input, pos: 0 }
    }

    /// The next pair, or `None` when the input holds no more.
    pub fn next(&mut self) -> (r: Option<(Vec<u8>, Vec<u8>)>)
        requires
            old(self).wf(),
        ensures
            final(self).wf(),
            final(self).input() == old(self).input(),
            final(self).pos() <= final(self).input().len(),
            match r {
                None => old(self).remaining() == Seq::<(Seq<u8>, Seq<u8>)>::empty(),
                Some((k, v)) => old(self).remaining() == seq![(k@, v@)] + final(self).remaining(),
            },
            r is Some ==> final(self).pos() > old(self).pos(),
    {
        let ghost s = self.input@;
        let ghost pos = self.pos as int;
        if self.pos >= self.input.len() {
            return None;
        }
        proof {
            lemma_step_advances(s, pos);
            lemma_scan_bounds(s, pos, false);
        }
        let k = find_separator(self.input.as_slice(), self.pos, false);
        if k >= self.input.len() {
            self.pos = self.input.len();
            return None;
        }
        let key = decode(self.input.as_slice(), self.pos, k);
        if self.input[k] == AMP {
            self.pos = k + 1;
            assert(url_decode(s.subrange(k + 1, k + 1)) =~= seq![]) by {
                assert(s.subrange(k + 1, k + 1) =~= seq![]);
            };
            return Some((key, Vec::new()));
        }
        proof {
            lemma_scan_bounds(s, k + 1, true);
        }
        let e = find_separator(self.input.as_slice(), k + 1, true);
        let value = decode(self.input.as_slice(), k + 1, e);
        if e >= self.input.len() {
            self.pos = self.input.len();
        } else {
            self.pos = e + 1;
        }
        Some((key, value))
    }
}

} // verus!
