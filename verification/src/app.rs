//! What the main application decides.
pub mod deduplicate_arguments;
pub mod hdd;
pub mod mount_point;
pub mod overlapping_arguments;
pub mod sub;

use crate::args::Threads;
use hdd::{any_in_hdd_answer, any_path_is_in_hdd, holds_path, DiskInfo, DiskKind, FsApi};
use vstd::prelude::*;

verus! {

/// The limit on the number of threads: none where it is decided by the
/// machine, one where `Auto` finds a file on an HDD, as many as were asked
/// for otherwise.
pub fn thread_limit<Fs: FsApi>(threads: Threads, files: &[String], disks: &[DiskInfo]) -> (limit: Option<usize>)
    ensures
        threads == Threads::Max ==> limit is None,
        threads matches Threads::Fixed(count) ==> limit == Some(count),
        threads == Threads::Auto ==> limit is None || limit == Some(1usize),
        threads == Threads::Auto ==> any_in_hdd_answer::<Fs>(files@, disks@, limit is Some),
        threads == Threads::Auto && limit is Some ==> exists|path: Seq<char>, i: int|
            0 <= i < disks@.len() && holds_path(path, disks@, i) && disks@[i].kind
                == DiskKind::HDD,
        threads == Threads::Auto && files@.len() == 0 ==> limit is None,
{
    match threads {
        Threads::Auto => {
            if any_path_is_in_hdd::<Fs>(files, disks) {
                Some(1)
            } else {
                None
            }
        },
        Threads::Max => None,
        Threads::Fixed(count) => Some(count),
    }
}

} // verus!
