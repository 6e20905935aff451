use vstd::prelude::*;

verus! {

/// Scan progress
#[derive(Debug, Clone, Copy, PartialEq, Eq, PartialOrd, Ord)]
pub struct Progress<Data> {
    /// Number of known items
    pub known_items: u64,
    /// Number of scanned items
    pub scanned_items: u64,
    /// Total size of scanned items
    pub scanned_total: Data,
    /// Number of occurred errors
    pub errors: u64,
}

impl Default for Progress<u64> {
    fn default() -> (progress: Self)
        ensures
            progress == (Progress::<u64> { known_items: 0, scanned_items: 0, scanned_total: 0, errors: 0 }),
    {
        Progress { known_items: 0, scanned_items: 0, scanned_total: 0, errors: 0 }
    }
}

} // verus!
