use vstd::prelude::*;

verus! {

/// When to use colors in the output.
#[derive(Debug, Clone, Copy, PartialEq, Eq)]
pub enum ColorWhen {
    /// Detect whether the output is a terminal and use colors accordingly.
    Auto,
    /// Always use colors.
    Always,
    /// Never use colors.
    Never,
}

impl Default for ColorWhen {
    fn default() -> (color_when: Self)
        ensures
            color_when == ColorWhen::Auto,
    {
        ColorWhen::Auto
    }
}

} // verus!
