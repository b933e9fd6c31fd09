//! Content hashes and the identifiers built on them.

use vstd::prelude::*;

verus! {

/// A 256-bit content hash, held as two 128-bit limbs, the most significant first.
#[derive(Clone, Copy, Debug, PartialEq, Eq, Hash, Structural)]
pub struct Digest {
    pub hi: u128,
    pub lo: u128,
}

impl Digest {
    /// The hash read as one unsigned 256-bit number.
    pub open spec fn value(self) -> int {
        self.hi * 0x1_0000_0000_0000_0000_0000_0000_0000_0000 + self.lo
    }

    /// Strict numeric order on hashes.
    pub open spec fn spec_lt(self, other: Digest) -> bool {
        self.hi < other.hi || (self.hi == other.hi && self.lo < other.lo)
    }

    /// Whether `self` is numerically smaller than `other`.
    pub fn lt(&self, other: &Digest) -> (b: bool)
        ensures
            b == self.spec_lt(*other),
    {
        self.hi < other.hi || (self.hi == other.hi && self.lo < other.lo)
    }
}

/// The limb-wise order is the order of the 256-bit numbers.
pub proof fn law_digest_order_is_numeric(a: Digest, b: Digest)
    ensures
        a.spec_lt(b) <==> a.value() < b.value(),
        a == b <==> a.value() == b.value(),
{
}

/// Identifies a block: the hash of its content.
#[derive(Clone, Copy, Debug, PartialEq, Eq, Hash, Structural)]
pub struct BlockId {
    pub digest: Digest,
}

/// Identifies an operation: the hash of its content.
#[derive(Clone, Copy, Debug, PartialEq, Eq, Hash, Structural)]
pub struct OperationId {
    pub digest: Digest,
}

/// Identifies an endorsement: the hash of its content.
#[derive(Clone, Copy, Debug, PartialEq, Eq, Hash, Structural)]
pub struct EndorsementId {
    pub digest: Digest,
}

/// An account: the hash of its public key.
#[derive(Clone, Copy, Debug, PartialEq, Eq, Hash, Structural)]
pub struct Address {
    pub digest: Digest,
}

} // verus!
