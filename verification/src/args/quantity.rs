use vstd::prelude::*;

verus! {

/// Quantity to be measured.
#[derive(Debug, Clone, Copy, PartialEq, Eq)]
pub enum Quantity {
    /// Measure apparent sizes.
    ApparentSize,
    /// Measure block sizes (block-count * 512B).
    BlockSize,
    /// Count numbers of blocks.
    BlockCount,
}

impl Quantity {
    /// Default value of the `--quantity` flag.
    pub const DEFAULT: Quantity = Quantity::BlockSize;
}

} // verus!
