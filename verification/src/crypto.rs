//! Fixed-size digests and the addresses derived from them.

use vstd::prelude::*;

verus! {

/// A 256-bit digest, held as four 64-bit words, most significant first.
///
/// Digests identify transactions and commit to history logs; the ledger never
/// computes one itself, it only stores, compares and orders them.
#[derive(Clone, Copy, Debug, PartialEq, Eq, Structural)]
pub struct Digest {
    pub h0: u64,
    pub h1: u64,
    pub h2: u64,
    pub h3: u64,
}

/// The address of a transaction author.
pub type Address = Digest;

/// Two to the power of 64.
pub open spec fn word_base() -> int {
    0x1_0000_0000_0000_0000
}

impl Digest {
    /// The digest read as one unsigned 256-bit number.
    pub open spec fn rank(self) -> int {
        ((self.h0 as int * word_base() + self.h1 as int) * word_base() + self.h2 as int)
            * word_base() + self.h3 as int
    }

    /// Strict order of digests: the order of their numeric values.
    pub open spec fn precedes(self, other: Digest) -> bool {
        self.rank() < other.rank()
    }

    /// The digest whose words are all zero.
    pub open spec fn spec_zero() -> Digest {
        Digest { h0: 0, h1: 0, h2: 0, h3: 0 }
    }

    /// Builds a digest from its four words.
    pub fn new(h0: u64, h1: u64, h2: u64, h3: u64) -> (digest: Digest)
        ensures
            digest == (Digest { h0, h1, h2, h3 }),
    {
        Digest { h0, h1, h2, h3 }
    }

    /// The all-zero digest.
    pub fn zero() -> (digest: Digest)
        ensures
            digest == Digest::spec_zero(),
    {
        Digest { h0: 0, h1: 0, h2: 0, h3: 0 }
    }

    /// Tells whether this digest is the all-zero digest.
    pub fn is_zero(&self) -> (zero: bool)
        ensures
            zero == (*self == Digest::spec_zero()),
    {
        self.h0 == 0 && self.h1 == 0 && self.h2 == 0 && self.h3 == 0
    }

    /// Tells whether this digest comes strictly before `other`.
    pub fn lt(&self, other: &Digest) -> (less: bool)
        ensures
            less == self.precedes(*other),
    {
        proof {
            lemma_rank_lexicographic(*self, *other);
        }
        if self.h0 != other.h0 {
            self.h0 < other.h0
        } else if self.h1 != other.h1 {
            self.h1 < other.h1
        } else if self.h2 != other.h2 {
            self.h2 < other.h2
        } else {
            self.h3 < other.h3
        }
    }
}

/// The numeric order of two digests is the lexicographic order of their words.
pub proof fn lemma_rank_lexicographic(a: Digest, b: Digest)
    ensures
        a.precedes(b) <==> (a.h0 < b.h0 || (a.h0 == b.h0 && (a.h1 < b.h1 || (a.h1 == b.h1 && (a.h2
            < b.h2 || (a.h2 == b.h2 && a.h3 < b.h3)))))),
{
    let base = word_base();
    let a01 = a.h0 as int * base + a.h1 as int;
    let b01 = b.h0 as int * base + b.h1 as int;
    let a012 = a01 * base + a.h2 as int;
    let b012 = b01 * base + b.h2 as int;
    assert(a01 < b01 <==> (a.h0 < b.h0 || (a.h0 == b.h0 && a.h1 < b.h1)));
    assert(a012 < b012 <==> (a01 < b01 || (a01 == b01 && a.h2 < b.h2)));
    assert(a.rank() == a012 * base + a.h3 as int);
    assert(b.rank() == b012 * base + b.h3 as int);
    assert(a.rank() < b.rank() <==> (a012 < b012 || (a012 == b012 && a.h3 < b.h3)));
    assert(a01 == b01 <==> (a.h0 == b.h0 && a.h1 == b.h1));
    assert(a012 == b012 <==> (a01 == b01 && a.h2 == b.h2));
}

/// Digests with the same numeric value are the same digest.
pub proof fn lemma_rank_injective(a: Digest, b: Digest)
    ensures
        a.rank() == b.rank() <==> a == b,
{
    lemma_rank_lexicographic(a, b);
    lemma_rank_lexicographic(b, a);
}

} // verus!
