use vstd::prelude::*;

verus! {

broadcast use vstd::array::group_array_axioms;

/// Address family of an IP address or socket endpoint.
#[derive(Clone, Copy, Debug, PartialEq, Eq, Structural)]
pub enum Family {
    V4,
    V6,
}

/// An IP address held as its network-order octets.
#[derive(Clone, Copy, Debug, PartialEq, Eq)]
pub enum IpAddress {
    V4([u8; 4]),
    V6([u8; 16]),
}

/// A socket endpoint: an IP address and a port.
#[derive(Clone, Copy, Debug, PartialEq, Eq)]
pub struct SocketAddress {
    pub ip: IpAddress,
    pub port: u16,
}

impl IpAddress {
    pub open spec fn spec_family(self) -> Family {
        match self {
            IpAddress::V4(_) => Family::V4,
            IpAddress::V6(_) => Family::V6,
        }
    }

    /// The family of this address.
    pub fn family(&self) -> (r: Family)
        ensures
            r == self.spec_family(),
    {
        match self {
            IpAddress::V4(_) => Family::V4,
            IpAddress::V6(_) => Family::V6,
        }
    }

    /// The octets of the address, most significant first.
    pub open spec fn octets(self) -> Seq<u8> {
        match self {
            IpAddress::V4(a) => a@,
            IpAddress::V6(a) => a@,
        }
    }

    /// Whether every octet is zero.
    pub open spec fn is_unspecified(self) -> bool {
        forall|i: int| 0 <= i < self.octets().len() ==> self.octets()[i] == 0
    }

    /// The "unspecified" address of a family (`0.0.0.0` or `::`), which asks
    /// the kernel to choose a source address.
    pub fn unspecified(f: Family) -> (r: IpAddress)
        ensures
            r.spec_family() == f,
            r.is_unspecified(),
    {
        match f {
            Family::V4 => IpAddress::V4([0u8; 4]),
            Family::V6 => IpAddress::V6([0u8; 16]),
        }
    }

    /// Whether two addresses are the same.
    pub fn same_as(&self, other: &IpAddress) -> (r: bool)
        ensures
            r == (*self == *other),
    {
        match (self, other) {
            (IpAddress::V4(a), IpAddress::V4(b)) => {
                let mut i: usize = 0;
                while i < 4
                    invariant
                        0 <= i <= 4,
                        *self == IpAddress::V4(*a),
                        *other == IpAddress::V4(*b),
                        forall|j: int| 0 <= j < i ==> a[j] == b[j],
                    decreases 4 - i,
                {
                    if a[i] != b[i] {
                        assert(a@[i as int] != b@[i as int]);
                        return false;
                    }
                    i = i + 1;
                }
                assert(a@ =~= b@);
                proof {
                    vstd::array::axiom_array_ext_equal(*a, *b);
                }
                true
            },
            (IpAddress::V6(a), IpAddress::V6(b)) => {
                let mut i: usize = 0;
                while i < 16
                    invariant
                        0 <= i <= 16,
                        *self == IpAddress::V6(*a),
                        *other == IpAddress::V6(*b),
                        forall|j: int| 0 <= j < i ==> a[j] == b[j],
                    decreases 16 - i,
                {
                    if a[i] != b[i] {
                        assert(a@[i as int] != b@[i as int]);
                        return false;
                    }
                    i = i + 1;
                }
                assert(a@ =~= b@);
                proof {
                    vstd::array::axiom_array_ext_equal(*a, *b);
                }
                true
            },
            _ => false,
        }
    }
}

impl SocketAddress {
    /// Whether two endpoints are the same.
    pub fn same_as(&self, other: &SocketAddress) -> (r: bool)
        ensures
            r == (*self == *other),
    {
        self.port == other.port && self.ip.same_as(&other.ip)
    }
}

} // verus!
