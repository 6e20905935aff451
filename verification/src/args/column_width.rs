//! How the width of the chart is shared between its columns.
use vstd::prelude::*;

verus! {

/// The width of the chart: in all, or of the tree column and of the bar
/// column.
#[derive(Debug, Clone, Copy, PartialEq, Eq)]
pub enum ColumnWidthDistribution {
    /// The whole width, shared as the chart sees fit.
    Total {
        /// Width of the chart.
        width: usize,
    },
    /// The widths of the two columns.
    Components {
        /// Maximum width of the tree column.
        tree_column_width: usize,
        /// Width of the bar column.
        bar_column_width: usize,
    },
}

/// The width of the chart where neither `--total-width` nor
/// `--column-width` gives one and the terminal's width is unknown.
pub const DEFAULT_TOTAL_WIDTH: usize = 150;

/// Deduce the width distribution from `--total-width` and `--column-width`
/// (which takes two values), or else from the width of the terminal.
///
/// The two options exclude each other.
pub fn column_width_distribution(
    total_width: Option<usize>,
    column_width: Option<&[usize]>,
    terminal_width: Option<usize>,
) -> (distribution: ColumnWidthDistribution)
    requires
        total_width is None || column_width is None,
        column_width matches Some(widths) ==> widths@.len() == 2,
    ensures
        distribution == match (total_width, column_width) {
            (None, None) => ColumnWidthDistribution::Total {
                width: match terminal_width {
                    Some(width) => width,
                    None => DEFAULT_TOTAL_WIDTH,
                },
            },
            (Some(width), _) => ColumnWidthDistribution::Total { width },
            (None, Some(widths)) => ColumnWidthDistribution::Components {
                tree_column_width: widths@[0],
                bar_column_width: widths@[1],
            },
        },
{
    match (total_width, column_width) {
        (None, None) => ColumnWidthDistribution::Total {
            width: match terminal_width {
                Some(width) => width,
                None => DEFAULT_TOTAL_WIDTH,
            },
        },
        (Some(width), _) => ColumnWidthDistribution::Total { width },
        (None, Some(widths)) => ColumnWidthDistribution::Components {
            tree_column_width: widths[0],
            bar_column_width: widths[1],
        },
    }
}

} // verus!
