//! IP addresses as plain bytes.
use vstd::prelude::*;

verus! {

/// An IPv4 or IPv6 address, as its octets.
#[derive(Debug, Clone, Copy, PartialEq, Eq)]
pub enum IpAddress {
    V4([u8; 4]),
    V6([u8; 16]),
}

/// Whether two byte strings are equal.
pub fn bytes_eq(a: &[u8], b: &[u8]) -> (r: bool)
    ensures
        r == (a@ == b@),
{
    if a.len() != b.len() {
        return false;
    }
    let mut i: usize = 0;
    while i < a.len()
        invariant
            i <= a@.len() == b@.len(),
            forall|j: int| 0 <= j < i ==> a@[j] == b@[j],
        decreases a@.len() - i,
    {
        if a[i] != b[i] {
            return false;
        }
        i = i + 1;
    }
    assert(a@ =~= b@);
    true
}

/// The IPv4-mapped IPv6 form of an IPv4 address, `::ffff:a.b.c.d`.
pub open spec fn mapped_v6(v4: Seq<u8>) -> Seq<u8> {
    seq![0u8, 0, 0, 0, 0, 0, 0, 0, 0, 0, 0xff, 0xff] + v4
}

/// The sixteen bytes of an address, IPv4 being mapped into IPv6.
pub open spec fn spec_ip_octets(ip: IpAddress) -> Seq<u8> {
    match ip {
        IpAddress::V4(a) => mapped_v6(a@),
        IpAddress::V6(a) => a@,
    }
}

/// Whether an address is private to a site: RFC 1918 for IPv4, RFC 4193
/// unique local addresses for IPv6.
pub open spec fn spec_is_local(ip: IpAddress) -> bool {
    match ip {
        IpAddress::V4(a) => a[0] == 10 || (a[0] == 172 && 16 <= a[1] < 32) || (a[0] == 192 && a[1]
            == 168),
        IpAddress::V6(a) => a[0] == 0xfc || a[0] == 0xfd,
    }
}

/// The IPv4 address that an IPv4-mapped IPv6 address stands for.
pub open spec fn spec_canonical(ip: IpAddress) -> IpAddress {
    match ip {
        IpAddress::V4(_) => ip,
        IpAddress::V6(a) => if a@.subrange(0, 12) == seq![0u8, 0, 0, 0, 0, 0, 0, 0, 0, 0, 0xff, 0xff] {
            IpAddress::V4([a[12], a[13], a[14], a[15]])
        } else {
            ip
        },
    }
}

impl IpAddress {
    pub open spec fn spec_is_v4(self) -> bool {
        self is V4
    }

    /// Whether this is an IPv4 address.
    pub fn is_ipv4(&self) -> (r: bool)
        ensures
            r == self.spec_is_v4(),
    {
        match self {
            IpAddress::V4(_) => true,
            IpAddress::V6(_) => false,
        }
    }

    /// Whether two addresses are the same.
    pub fn same(&self, other: &IpAddress) -> (r: bool)
        ensures
            r == (*self == *other),
    {
        match (self, other) {
            (IpAddress::V4(a), IpAddress::V4(b)) => {
                let r = bytes_eq(a.as_slice(), b.as_slice());
                assert(r ==> *a == *b) by {
                    if r {
                        assert(a@ == b@);
                        assert(*a =~= *b);
                    }
                };
                r
            },
            (IpAddress::V6(a), IpAddress::V6(b)) => {
                let r = bytes_eq(a.as_slice(), b.as_slice());
                assert(r ==> *a == *b) by {
                    if r {
                        assert(a@ == b@);
                        assert(*a =~= *b);
                    }
                };
                r
            },
            _ => false,
        }
    }

    /// Whether the address is private to a site (RFC 1918 or RFC 4193).
    pub fn is_local(&self) -> (r: bool)
        ensures
            r == spec_is_local(*self),
    {
        match self {
            IpAddress::V4(a) => a[0] == 10 || (a[0] == 172 && 16 <= a[1] && a[1] < 32) || (a[0]
                == 192 && a[1] == 168),
            IpAddress::V6(a) => a[0] == 0xfc || a[0] == 0xfd,
        }
    }

    /// The sixteen bytes of the address, an IPv4 address being mapped into
    /// IPv6.
    pub fn octets16(&self) -> (r: [u8; 16])
        ensures
            r@ == spec_ip_octets(*self),
    {
        match self {
            IpAddress::V4(a) => {
                let r = [0u8, 0, 0, 0, 0, 0, 0, 0, 0, 0, 0xff, 0xff, a[0], a[1], a[2], a[3]];
                assert(r@ =~= mapped_v6(a@));
                r
            },
            IpAddress::V6(a) => *a,
        }
    }

    /// The IPv4 address that an IPv4-mapped IPv6 address stands for; any
    /// other address is returned as it is.
    pub fn to_canonical(&self) -> (r: IpAddress)
        ensures
            r == spec_canonical(*self),
    {
        match self {
            IpAddress::V4(_) => *self,
            IpAddress::V6(a) => {
                let mut mapped = true;
                let mut i: usize = 0;
                while i < 12
                    invariant
                        i <= 12,
                        mapped == (forall|j: int| 0 <= j < i ==> a@[j] == (if j < 10 {
                            0u8
                        } else {
                            0xffu8
                        })),
                    decreases 12 - i,
                {
                    let expected: u8 = if i < 10 {
                        0
                    } else {
                        0xff
                    };
                    if a[i] != expected {
                        mapped = false;
                    }
                    i = i + 1;
                }
                let ghost prefix = seq![0u8, 0, 0, 0, 0, 0, 0, 0, 0, 0, 0xff, 0xff];
                if mapped {
                    assert(a@.subrange(0, 12) =~= prefix);
                    IpAddress::V4([a[12], a[13], a[14], a[15]])
                } else {
                    assert(a@.subrange(0, 12) != prefix) by {
                        let j = choose|j: int| 0 <= j < 12 && a@[j] != (if j < 10 {
                            0u8
                        } else {
                            0xffu8
                        });
                        assert(a@.subrange(0, 12)[j] != prefix[j]);
                    };
                    *self
                }
            },
        }
    }
}

} // verus!
