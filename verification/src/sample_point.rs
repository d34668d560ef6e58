use vstd::prelude::*;

verus! {

/// One entry of a per-thread call tree: the depth below the synthetic root,
/// the instruction address the entry stands for, and the number of samples
/// whose call path passed through it.
#[derive(Debug, Clone, Copy)]
pub struct SamplePoint {
    pub level: u32,
    pub address: u64,
    pub count: u32,
}

impl SamplePoint {
    /// A fresh, non-root entry starts with a hit count of one: it is only
    /// created when a sample first reaches its address.
    pub fn new(level: u32, address: u64) -> (r: Self)
        ensures
            r.level == level,
            r.address == address,
            r.count == 1,
    {
        Self { level, address, count: 1 }
    }

    /// The synthetic root of a call tree: level 0, address 0, and a count
    /// that is seeded purely by sample arrival, so it starts at 0.
    pub fn root_sample() -> (r: Self)
        ensures
            r.level == 0,
            r.address == 0,
            r.count == 0,
    {
        Self { level: 0, address: 0, count: 0 }
    }

    pub fn increment_count(&mut self)
        requires
            old(self).count < u32::MAX,
        ensures
            final(self).level == old(self).level,
            final(self).address == old(self).address,
            final(self).count == old(self).count + 1,
    {
        self.count = self.count + 1;
    }

    pub fn get_level(&self) -> (r: u32)
        ensures
            r == self.level,
    {
        self.level
    }

    pub fn get_address(&self) -> (r: u64)
        ensures
            r == self.address,
    {
        self.address
    }

    pub fn get_count(&self) -> (r: u32)
        ensures
            r == self.count,
    {
        self.count
    }
}

} // verus!
