use vstd::prelude::*;

verus! {

/// A standalone call-tree entry: the depth below the root, the
/// instruction address, and the hit count.
#[derive(Debug, Clone, Copy)]
pub struct SampleNode {
    pub level: u32,
    pub address: u64,
    pub count: u32,
}

impl SampleNode {
    /// A fresh, non-root node starts with a hit count of one.
    pub fn new(level: u32, address: u64) -> (r: Self)
        ensures
            r.level == level,
            r.address == address,
            r.count == 1,
    {
        Self { level, address, count: 1 }
    }

    /// The synthetic root of a call tree: level 0, address 0, count 0.
    pub fn root_node() -> (r: Self)
        ensures
            r.level == 0,
            r.address == 0,
            r.count == 0,
    {
        Self { level: 0, address: 0, count: 0 }
    }

    pub fn increment_count(&mut self)
        requires
            old(self).count < u32::MAX,
        ensures
            final(self).level == old(self).level,
            final(self).address == old(self).address,
            final(self).count == old(self).count + 1,
    {
        self.count = self.count + 1;
    }

    pub fn get_level(&self) -> (r: u32)
        ensures
            r == self.level,
    {
        self.level
    }

    pub fn get_address(&self) -> (r: u64)
        ensures
            r == self.address,
    {
        self.address
    }

    pub fn get_count(&self) -> (r: u32)
        ensures
            r == self.count,
    {
        self.count
    }
}

} // verus!
