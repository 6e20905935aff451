//! How the size of an entry is read from its metadata.
use vstd::prelude::*;

verus! {

/// What the sizes are read from in the metadata of an entry.
#[derive(Debug, Clone, Copy, PartialEq, Eq)]
pub struct FileStats {
    /// The length of the file in bytes (`Metadata::len`).
    pub len: u64,
    /// The number of 512-byte blocks allocated to it (`MetadataExt::blocks`).
    pub blocks: u64,
}

/// Infers size from the metadata of an entry.
pub trait GetSize {
    type Size;

    /// The size that the metadata gives.
    spec fn size_of(&self, stats: FileStats) -> Self::Size;

    /// Read the size from the metadata.
    fn get_size(&self, stats: &FileStats) -> (size: Self::Size)
        requires
            stats.blocks <= u64::MAX / 512,
        ensures
            size == self.size_of(*stats),
    ;
}

/// Returns the apparent size, the length of the file.
#[derive(Debug, Clone, Copy, PartialEq, Eq, PartialOrd, Ord, Hash)]
pub struct GetApparentSize;

impl GetSize for GetApparentSize {
    type Size = u64;

    open spec fn size_of(&self, stats: FileStats) -> u64 {
        stats.len
    }

    fn get_size(&self, stats: &FileStats) -> (size: u64)
        ensures
            size == stats.len,
    {
        stats.len
    }
}

/// Returns the block size: the number of blocks times 512 bytes.
#[derive(Debug, Clone, Copy, PartialEq, Eq, PartialOrd, Ord, Hash)]
pub struct GetBlockSize;

impl GetSize for GetBlockSize {
    type Size = u64;

    open spec fn size_of(&self, stats: FileStats) -> u64 {
        (stats.blocks * 512) as u64
    }

    fn get_size(&self, stats: &FileStats) -> (size: u64)
        ensures
            size == stats.blocks * 512,
    {
        stats.blocks * 512
    }
}

/// Returns the number of blocks.
#[derive(Debug, Clone, Copy, PartialEq, Eq, PartialOrd, Ord, Hash)]
pub struct GetBlockCount;

impl GetSize for GetBlockCount {
    type Size = u64;

    open spec fn size_of(&self, stats: FileStats) -> u64 {
        stats.blocks
    }

    fn get_size(&self, stats: &FileStats) -> (size: u64)
        ensures
            size == stats.blocks,
    {
        stats.blocks
    }
}

/// What each quantity measures: the apparent size is the length in bytes;
/// the block size is the number of 512-byte blocks times 512; the block
/// count is the number of blocks.
pub proof fn lemma_sizes_measured(stats: FileStats)
    requires
        stats.blocks <= u64::MAX / 512,
    ensures
        GetApparentSize.size_of(stats) == stats.len,
        GetBlockSize.size_of(stats) == stats.blocks * 512,
        GetBlockCount.size_of(stats) == stats.blocks,
{
}

/// The block size and the block count depend on the blocks alone, never on
/// the length; the apparent size on the length alone, never on the blocks.
pub proof fn lemma_sizes_independent(a: FileStats, b: FileStats)
    requires
        a.blocks <= u64::MAX / 512,
        b.blocks <= u64::MAX / 512,
    ensures
        a.blocks == b.blocks ==> GetBlockSize.size_of(a) == GetBlockSize.size_of(b)
            && GetBlockCount.size_of(a) == GetBlockCount.size_of(b),
        a.len == b.len ==> GetApparentSize.size_of(a) == GetApparentSize.size_of(b),
        a.blocks < b.blocks ==> GetBlockSize.size_of(a) < GetBlockSize.size_of(b),
{
}

} // verus!
