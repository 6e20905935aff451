//! The names under which the ways of displaying bytes are given.
use vstd::prelude::*;

verus! {

/// How a quantity of bytes is displayed, with the name that selects it.
#[derive(Debug, Clone, Copy, PartialEq, Eq)]
pub enum BytesDisplayFormat {
    /// Display the value as-is.
    PlainNumber,
    /// Display the value with a unit suffix in metric scale.
    MetricUnits,
    /// Display the value with a unit suffix in binary scale.
    BinaryUnits,
}

impl BytesDisplayFormat {
    /// The name of each format.
    pub open spec fn spec_name(self) -> &'static str {
        match self {
            BytesDisplayFormat::PlainNumber => "plain",
            BytesDisplayFormat::MetricUnits => "metric",
            BytesDisplayFormat::BinaryUnits => "binary",
        }
    }

    /// The name of the format.
    pub fn as_ref(&self) -> (name: &'static str)
        ensures
            name == self.spec_name(),
    {
        match self {
            BytesDisplayFormat::PlainNumber => "plain",
            BytesDisplayFormat::MetricUnits => "metric",
            BytesDisplayFormat::BinaryUnits => "binary",
        }
    }

    /// The name of the default format, metric units.
    pub fn default_value() -> (name: &'static str)
        ensures
            name == BytesDisplayFormat::MetricUnits.spec_name(),
    {
        BytesDisplayFormat::MetricUnits.as_ref()
    }
}

} // verus!
