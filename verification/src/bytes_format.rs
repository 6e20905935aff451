//! Display quantities of bytes.
pub mod formatter;
pub mod output;
pub mod parsed_value;
pub mod scale_base;

pub use formatter::Formatter;
pub use output::Output;
pub use parsed_value::ParsedValue;

use formatter::{binary, exponent_reached, metric, power, unit_of};
use vstd::prelude::*;

verus! {

/// How a quantity of bytes is to be displayed.
#[derive(Debug, Clone, Copy, PartialEq, Eq)]
pub enum BytesFormat {
    /// Display the value as-is.
    PlainNumber,
    /// Display the value with a unit suffix in [metric scale](scale_base::METRIC).
    MetricUnits,
    /// Display the value with a unit suffix in [binary scale](scale_base::BINARY).
    BinaryUnits,
}

/// What [`Formatter::parse_value`] gives for `value` on the scale `base`.
pub open spec fn parsed_on_scale(base: nat, value: u64) -> ParsedValue {
    let exponent = exponent_reached(base, value as nat);
    if exponent == 0 {
        ParsedValue::Small { value: value as u16 }
    } else {
        ParsedValue::Big {
            value,
            unit: unit_of(exponent),
            scale: power(base, exponent) as u64,
            exponent: exponent as usize,
        }
    }
}

impl BytesFormat {
    /// Format a quantity of bytes according to the settings.
    pub fn format(self, bytes: u64) -> (output: Output)
        ensures
            output == match self {
                BytesFormat::PlainNumber => Output::PlainNumber(bytes),
                BytesFormat::MetricUnits => Output::Units(
                    parsed_on_scale(scale_base::METRIC as nat, bytes),
                ),
                BytesFormat::BinaryUnits => Output::Units(
                    parsed_on_scale(scale_base::BINARY as nat, bytes),
                ),
            },
    {
        proof {
            reveal_with_fuel(power, 6);
            assert(power(1000, 5) == 1_000_000_000_000_000);
            assert(power(1024, 5) == 1_125_899_906_842_624);
        }
        match self {
            BytesFormat::PlainNumber => Output::PlainNumber(bytes),
            BytesFormat::MetricUnits => Output::Units(metric().parse_value(bytes)),
            BytesFormat::BinaryUnits => Output::Units(binary().parse_value(bytes)),
        }
    }
}

} // verus!
