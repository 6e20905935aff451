use vstd::prelude::*;

verus! {

/// Unique identifier for a device or filesystem.
#[derive(Debug, Clone, Copy, PartialEq, Eq)]
pub struct DeviceId(pub u64);

/// The [`DeviceId`] of the device number that the filesystem metadata of an
/// entry holds.
pub fn get_device_id(dev: u64) -> (id: DeviceId)
    ensures
        id == DeviceId(dev),
{
    DeviceId(dev)
}

/// Whether an entry on device `id` is on the device of the root, where the
/// walk stays on it (`Some`); every entry counts as on it otherwise.
pub fn is_same_device(root_dev: Option<DeviceId>, id: DeviceId) -> (same: bool)
    ensures
        same == (root_dev matches Some(root) ==> root == id),
{
    match root_dev {
        None => true,
        Some(root) => root.0 == id.0,
    }
}

} // verus!
