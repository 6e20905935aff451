//! Filesystem devices.
use vstd::prelude::*;

verus! {

/// Whether to cross device boundary into a different filesystem.
#[derive(Debug, Clone, Copy, PartialEq, Eq)]
pub enum DeviceBoundary {
    Cross,
    Stay,
}

impl DeviceBoundary {
    /// Derive device boundary from `--one-file-system`.
    pub fn from_one_file_system(one_file_system: bool) -> (boundary: Self)
        ensures
            boundary == (if one_file_system {
                DeviceBoundary::Stay
            } else {
                DeviceBoundary::Cross
            }),
    {
        match one_file_system {
            false => DeviceBoundary::Cross,
            true => DeviceBoundary::Stay,
        }
    }
}

/// The device number of a filesystem.
#[derive(Debug, Clone, Copy, PartialEq, Eq, Hash)]
pub struct DeviceNumber(pub u64);

impl From<u64> for DeviceNumber {
    fn from(value: u64) -> (number: Self)
        ensures
            number == DeviceNumber(value),
    {
        DeviceNumber(value)
    }
}

impl vstd::std_specs::convert::FromSpecImpl<u64> for DeviceNumber {
    open spec fn obeys_from_spec() -> bool {
        true
    }

    open spec fn from_spec(value: u64) -> Self {
        DeviceNumber(value)
    }
}

impl From<DeviceNumber> for u64 {
    fn from(number: DeviceNumber) -> (value: Self)
        ensures
            value == number.0,
    {
        number.0
    }
}

impl vstd::std_specs::convert::FromSpecImpl<DeviceNumber> for u64 {
    open spec fn obeys_from_spec() -> bool {
        true
    }

    open spec fn from_spec(number: DeviceNumber) -> Self {
        number.0
    }
}

} // verus!
