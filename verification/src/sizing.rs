//! The disk-usage tally of an artifact: what each file of it contributes,
//! with hard-linked files counted once.

use vstd::prelude::*;
use std::collections::HashSet;

verus! {

broadcast use vstd::std_specs::hash::group_hash_axioms;

/// The identity of a file on disk: its device and inode numbers, as one key.
pub open spec fn inode_key(dev: u64, ino: u64) -> u128 {
    (dev as int * 0x1_0000_0000_0000_0000 + ino as int) as u128
}

/// Bytes allocated to a file of `blocks` 512-byte blocks (saturating).
pub open spec fn block_bytes(blocks: u64) -> u64 {
    if blocks * 512 > u64::MAX { u64::MAX } else { (blocks * 512) as u64 }
}

/// `x + y`, wrapping around at 2^64 like an atomic counter.
pub open spec fn wrap_add(x: u64, y: u64) -> u64 {
    vstd::wrapping::u64_specs::wrapping_add(x, y)
}

/// The tally after counting a regular file of `blocks` 512-byte blocks with
/// `nlink` links, identified by `dev` and `ino`: a file with several links
/// adds its blocks only the first time its inode is seen.
pub open spec fn counted(u: UsageView, blocks: u64, nlink: u64, dev: u64, ino: u64) -> UsageView {
    if nlink > 1 && u.seen.contains(inode_key(dev, ino)) {
        u
    } else {
        UsageView {
            seen: if nlink > 1 { u.seen.insert(inode_key(dev, ino)) } else { u.seen },
            total: wrap_add(u.total, block_bytes(blocks)),
        }
    }
}

/// The abstract state of a tally: the hard-linked inodes already counted and
/// the running total.
pub struct UsageView {
    pub seen: Set<u128>,
    pub total: u64,
}

/// A running disk-usage total over the files of one directory tree.
pub struct DiskUsage {
    seen: HashSet<u128>,
    total: u64,
}

impl View for DiskUsage {
    type V = UsageView;

    closed spec fn view(&self) -> UsageView {
        UsageView { seen: self.seen@, total: self.total }
    }
}

impl DiskUsage {
    /// An empty tally.
    pub fn new() -> (u: Self)
        ensures
            u@.seen == Set::<u128>::empty(),
            u@.total == 0,
    {
        DiskUsage { seen: HashSet::new(), total: 0 }
    }

    /// Count a regular file of `blocks` 512-byte blocks with `nlink` links,
    /// identified by `dev` and `ino`. A file with several links adds its
    /// blocks only the first time its inode is seen.
    pub fn add_file(&mut self, blocks: u64, nlink: u64, dev: u64, ino: u64)
        ensures
            final(self)@ == counted(old(self)@, blocks, nlink, dev, ino),
    {
        if nlink > 1 {
            let key: u128 = (dev as u128) * 0x1_0000_0000_0000_0000u128 + (ino as u128);
            assert(key == inode_key(dev, ino));
            if !self.seen.insert(key) {
                assert(self@.seen =~= old(self)@.seen);
                return;
            }
        }
        let bytes: u64 = match blocks.checked_mul(512) {
            Some(b) => b,
            None => u64::MAX,
        };
        self.total = self.total.wrapping_add(bytes);
    }

    /// Count a file by its logical length, where block counts and inode
    /// identities are not available.
    pub fn add_length(&mut self, len: u64)
        ensures
            final(self)@.seen == old(self)@.seen,
            final(self)@.total == wrap_add(old(self)@.total, len),
    {
        self.total = self.total.wrapping_add(len);
    }

    /// The bytes counted so far.
    pub fn total(&self) -> (t: u64)
        ensures
            t == self@.total,
    {
        self.total
    }
}

/// A hard-linked file is counted once: once one link of an inode has been
/// counted, counting any other link of it leaves the tally unchanged.
pub proof fn lemma_hardlink_counted_once(u: UsageView, blocks: u64, nlink: u64, blocks2: u64, nlink2: u64, dev: u64, ino: u64)
    requires
        nlink > 1,
        nlink2 > 1,
    ensures
        counted(counted(u, blocks, nlink, dev, ino), blocks2, nlink2, dev, ino) == counted(u, blocks, nlink, dev, ino),
{
}

} // verus!
