use vstd::prelude::*;

verus! {

/// Hands out distinct, strictly increasing nonces, seeded from the account's
/// confirmed transaction count at startup. The k-th allocation (counting from
/// zero) returns `seed + k`; no value is ever returned twice.
pub struct NonceAllocator {
    seed: u64,
    issued: u64,
}

impl NonceAllocator {
    /// The seed this allocator started from.
    pub closed spec fn seed(self) -> u64 {
        self.seed
    }

    /// How many nonces have been handed out so far.
    pub closed spec fn issued(self) -> u64 {
        self.issued
    }

    pub fn new(seed: u64) -> (r: NonceAllocator)
        ensures
            r.seed() == seed,
            r.issued() == 0,
    {
        NonceAllocator { seed, issued: 0 }
    }

    /// Fetch-and-add: returns the lowest nonce not yet issued and advances
    /// past it.
    pub fn allocate(&mut self) -> (r: u64)
        requires
            old(self).seed() + old(self).issued() < u64::MAX,
        ensures
            r == old(self).seed() + old(self).issued(),
            final(self).seed() == old(self).seed(),
            final(self).issued() == old(self).issued() + 1,
    {
        let r = self.seed + self.issued;
        self.issued = self.issued + 1;
        r
    }
}

} // verus!
