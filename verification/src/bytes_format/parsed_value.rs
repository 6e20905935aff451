use vstd::prelude::*;

verus! {

/// Return value of [`Formatter::parse_value`](super::Formatter::parse_value).
#[derive(Debug, Clone, Copy, PartialEq, Eq)]
pub enum ParsedValue {
    /// When input value is less than `scale_base`.
    Small {
        /// Input value that is less than `scale_base`.
        value: u16,
    },
    /// When input value is greater than `scale_base`.
    ///
    /// The visible number is the coefficient `value / scale`, followed by
    /// `unit`.
    Big {
        /// The input value, which `scale` divides into the visible coefficient.
        value: u64,
        /// The unit that follows the coefficient.
        unit: char,
        /// The divisor that is used upon the whole number to get the
        /// coefficient.
        scale: u64,
        /// The exponent that was used upon base scale to get `scale`.
        exponent: usize,
    },
}

} // verus!
