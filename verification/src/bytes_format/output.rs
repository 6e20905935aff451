use super::ParsedValue;
use vstd::prelude::*;

verus! {

/// How a quantity of bytes is to be displayed.
#[derive(Debug, Clone, Copy, PartialEq, Eq)]
pub enum Output {
    /// Display the value as-is.
    PlainNumber(u64),
    /// Display the value with unit a suffix.
    Units(ParsedValue),
}

} // verus!
