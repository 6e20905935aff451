use vstd::prelude::*;

verus! {

/// When to colorize the output.
#[derive(Debug, Clone, Copy, PartialEq, Eq)]
pub enum ColorOption {
    /// Colorize output only when stdout is a terminal.
    Auto,
    /// Always colorize the output.
    Always,
    /// Never colorize the output.
    Never,
}

impl Default for ColorOption {
    fn default() -> (option: Self)
        ensures
            option == ColorOption::Auto,
    {
        ColorOption::Auto
    }
}

} // verus!
