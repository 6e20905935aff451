//! Multiplication factors between consecutive units.
use vstd::prelude::*;

verus! {

/// Metric scale: 1K = 1000B, 1M = 1000K, and so on.
pub const METRIC: u64 = 1000;

/// Binary scale: 1K = 1024B, 1M = 1024K, and so on.
pub const BINARY: u64 = 1024;

} // verus!
