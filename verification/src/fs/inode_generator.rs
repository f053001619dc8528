//! Generates new inode numbers without conflicts.

use vstd::prelude::*;

verus! {

/// The inode number of the root of the mount.
pub const ROOT_INODE: u64 = 1;

/// Hands out inode numbers, each strictly greater than every number handed
/// out before, starting just above the root's.
pub struct INodeGenerator {
    last_value: u64,
}

impl INodeGenerator {
    /// The most recently handed-out number (initially the root's).
    pub closed spec fn last_spec(&self) -> u64 {
        self.last_value
    }

    /// A fresh generator: the next number handed out is `ROOT_INODE + 1`.
    pub fn new() -> (r: INodeGenerator)
        ensures
            r.last_spec() == ROOT_INODE,
    {
        INodeGenerator { last_value: ROOT_INODE }
    }

    /// The next inode number, strictly above everything handed out so far
    /// (and hence never `ROOT_INODE`).
    pub fn next(&mut self) -> (r: u64)
        requires
            old(self).last_spec() < u64::MAX,
        ensures
            final(self).last_spec() == old(self).last_spec() + 1,
            r == final(self).last_spec(),
    {
        self.last_value = self.last_value + 1;
        self.last_value
    }
}

} // verus!
