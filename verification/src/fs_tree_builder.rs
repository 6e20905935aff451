//! What building a tree from the filesystem decides.
pub mod device_id;
pub mod error_report;
pub mod progress;

pub use device_id::{get_device_id, DeviceId};
pub use error_report::{ErrorReport, Operation};
pub use progress::Progress;
pub use crate::data_tree::assemble_node;

use vstd::prelude::*;

verus! {

/// What the walk does with an entry once its metadata was read.
#[derive(Debug, Clone, Copy, PartialEq, Eq, Structural)]
pub enum WalkStep {
    /// The entry is a leaf of this size.
    Leaf(u64),
    /// The entry is a directory of this size of its own, to be read.
    ReadDirectory(u64),
}

/// The step of the walk at an entry whose metadata gave `size` (`None` where
/// reading the metadata failed): a failure gives a leaf of size zero; an
/// entry that is not a directory, or lies on another device, a leaf of its
/// own size; a directory on the same device is read.
pub fn visit_entry(size: Option<u64>, is_dir: bool, same_device: bool) -> (step: WalkStep)
    ensures
        step == (match size {
            None => WalkStep::Leaf(0),
            Some(size) => if is_dir && same_device {
                WalkStep::ReadDirectory(size)
            } else {
                WalkStep::Leaf(size)
            },
        }),
{
    match size {
        None => WalkStep::Leaf(0),
        Some(size) => {
            if is_dir && same_device {
                WalkStep::ReadDirectory(size)
            } else {
                WalkStep::Leaf(size)
            }
        },
    }
}

/// Whether the walk records an entry as a hardlink, for the deduction of
/// shared sizes: it is not a directory and has more than one link.
pub fn records_link(is_dir: bool, link_count: u64) -> (record: bool)
    ensures
        record == (!is_dir && link_count > 1),
{
    !is_dir && link_count > 1
}

} // verus!
