//! The values that the command line takes.
pub mod color;
pub mod color_option;
pub mod column_width;
pub mod depth;
pub mod number;
pub mod quantity;
pub mod threads;

pub use color::ColorWhen;
pub use color_option::ColorOption;
pub use column_width::{column_width_distribution, ColumnWidthDistribution};
pub use depth::Depth;
pub use quantity::Quantity;
pub use threads::Threads;
