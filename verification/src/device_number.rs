//! The device number of a filesystem.
pub use crate::device::DeviceNumber;
