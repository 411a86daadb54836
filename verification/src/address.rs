//! Address families and addresses as plain integers, with their total order.

use vstd::prelude::*;

verus! {

/// The two address families a lookup can ask for.
#[derive(Clone, Copy, Debug, PartialEq, Eq, Hash, Structural)]
pub enum Family {
    /// IPv4, carried by A records.
    V4,
    /// IPv6, carried by AAAA records.
    V6,
}

/// An IP address, held as the integer that its bytes spell in network order:
/// `10.0.0.1` is `V4(0x0A00_0001)`, `::1` is `V6(1)`.
#[derive(Clone, Copy, Debug, PartialEq, Eq, Hash, Structural)]
pub enum Address {
    V4(u32),
    V6(u128),
}

/// The number of IPv4 addresses; every IPv6 address ranks at or above it.
pub open spec fn v4_span() -> int {
    0x1_0000_0000
}

impl Address {
    /// The family this address belongs to.
    pub open spec fn spec_family(self) -> Family {
        match self {
            Address::V4(_) => Family::V4,
            Address::V6(_) => Family::V6,
        }
    }

    /// The place of this address in the total order: IPv4 addresses come
    /// first, by their bits; IPv6 addresses follow, by theirs.
    pub open spec fn rank(self) -> int {
        match self {
            Address::V4(bits) => bits as int,
            Address::V6(bits) => v4_span() + bits as int,
        }
    }

    /// `self` stands before `other` in the total order.
    pub open spec fn spec_precedes(self, other: Address) -> bool {
        self.rank() < other.rank()
    }

    pub fn family(&self) -> (family: Family)
        ensures
            family == self.spec_family(),
    {
        match self {
            Address::V4(_) => Family::V4,
            Address::V6(_) => Family::V6,
        }
    }

    /// Strict comparison in the total order.
    pub fn precedes(&self, other: &Address) -> (before: bool)
        ensures
            before == self.spec_precedes(*other),
    {
        match (self, other) {
            (Address::V4(a), Address::V4(b)) => *a < *b,
            (Address::V4(_), Address::V6(_)) => true,
            (Address::V6(_), Address::V4(_)) => false,
            (Address::V6(a), Address::V6(b)) => *a < *b,
        }
    }
}

/// Two addresses of equal rank are the same address, so `rank` orders
/// addresses totally: of two different addresses one precedes the other.
pub proof fn lemma_rank_is_injective(a: Address, b: Address)
    ensures
        a.rank() == b.rank() <==> a == b,
        a != b ==> (a.spec_precedes(b) || b.spec_precedes(a)),
        a.spec_family() == Family::V4 && b.spec_family() == Family::V6 ==> a.spec_precedes(b),
{
}

} // verus!
