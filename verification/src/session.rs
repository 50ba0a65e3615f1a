//! Session identifiers: a random 31-bit prefix fixed per generator,
//! with a counter in the low half, so ids from one process are
//! distinct until the counter wraps.

use vstd::prelude::*;
use rand::Rng;

verus! {

/// Relies on rand's thread-local generator for one uniform draw;
/// nothing is promised of the value.
#[verifier::external_body]
fn random_u32() -> u32 {
    rand::thread_rng().gen()
}

/// Generator of session ids: a fixed high half drawn at start, and a
/// counter that steps once per id.
pub struct SessionIdGen {
    hi: u32,
    lo: u32,
}

impl SessionIdGen {
    /// The fixed high half of every id from this generator.
    pub closed spec fn spec_hi(self) -> nat {
        self.hi as nat
    }

    /// The counter value the last id carried.
    pub closed spec fn spec_lo(self) -> nat {
        self.lo as nat
    }

    /// The high half fits in 31 bits, so an id never overflows.
    pub closed spec fn wf(self) -> bool {
        self.hi < 0x8000_0000
    }

    pub fn new() -> (r: Self)
        ensures
            r.wf(),
            r.spec_lo() == 0,
    {
        let x = random_u32();
        let hi = x & 0x7FFF_FFFF;
        proof {
            assert(x & 0x7FFF_FFFF < 0x8000_0000) by (bit_vector);
        }
        SessionIdGen { hi, lo: 0 }
    }

    /// The next id: the fixed high half over the stepped counter,
    /// which wraps after `u32::MAX`.
    pub fn next(&mut self) -> (r: u64)
        requires
            old(self).wf(),
        ensures
            final(self).wf(),
            final(self).spec_hi() == old(self).spec_hi(),
            final(self).spec_lo() == (old(self).spec_lo() + 1) % 0x1_0000_0000,
            r == final(self).spec_hi() * 0x1_0000_0000 + final(self).spec_lo(),
    {
        if self.lo == u32::MAX {
            self.lo = 0;
        } else {
            self.lo = self.lo + 1;
        }
        (self.hi as u64) * 0x1_0000_0000 + (self.lo as u64)
    }
}

} // verus!
