use super::{scale_base, ParsedValue};
use vstd::prelude::*;

verus! {

/// `base` raised to the power `exp`.
pub open spec fn power(base: nat, exp: nat) -> nat
    decreases exp,
{
    if exp == 0 {
        1
    } else {
        base * power(base, (exp - 1) as nat)
    }
}

/// Raising a base of at least 1 to a higher power gives no less.
pub proof fn lemma_power_increases(base: nat, low: nat, high: nat)
    requires
        base >= 1,
        low <= high,
    ensures
        power(base, low) <= power(base, high),
    decreases high,
{
    if low < high {
        lemma_power_increases(base, low, (high - 1) as nat);
        let previous = power(base, (high - 1) as nat);
        assert(base * previous >= previous) by (nonlinear_arith)
            requires
                base >= 1,
        ;
    }
}

/// The unit letter of each exponent that [`Formatter::parse_value`] uses.
pub open spec fn unit_of(exponent: nat) -> char {
    if exponent == 1 {
        'K'
    } else if exponent == 2 {
        'M'
    } else if exponent == 3 {
        'G'
    } else if exponent == 4 {
        'T'
    } else {
        'P'
    }
}

/// The unit letters are the metric prefixes in order of size: kilo, mega,
/// giga, tera and peta stand for the first to the fifth power of the scale
/// base.
pub proof fn lemma_unit_letters()
    ensures
        forall|exponent: nat|
            1 <= exponent <= 5 ==> #[trigger] unit_of(exponent) == seq!['K', 'M', 'G', 'T', 'P'][exponent
                - 1],
{
    assert forall|exponent: nat| 1 <= exponent <= 5 implies #[trigger] unit_of(exponent) == seq![
        'K',
        'M',
        'G',
        'T',
        'P',
    ][exponent - 1] by {
        let letters = seq!['K', 'M', 'G', 'T', 'P'];
        if exponent == 1 {
            assert(letters[0] == 'K');
        } else if exponent == 2 {
            assert(letters[1] == 'M');
        } else if exponent == 3 {
            assert(letters[2] == 'G');
        } else if exponent == 4 {
            assert(letters[3] == 'T');
        } else {
            assert(letters[4] == 'P');
        }
    }
}

/// The greatest exponent from 1 to 5 whose power of `base` is at most
/// `value`, or 0 where there is none.
pub open spec fn exponent_reached(base: nat, value: nat) -> nat {
    if value >= power(base, 5) {
        5
    } else if value >= power(base, 4) {
        4
    } else if value >= power(base, 3) {
        3
    } else if value >= power(base, 2) {
        2
    } else if value >= power(base, 1) {
        1
    } else {
        0
    }
}

/// A value takes a unit exactly when it reaches the scale base, one `K`;
/// a smaller value stands as it is.
pub proof fn lemma_small_below_base(base: nat, value: nat)
    requires
        base >= 1,
    ensures
        (exponent_reached(base, value) == 0) <==> value < base,
{
    reveal_with_fuel(power, 2);
    assert(power(base, 1) == base);
    lemma_power_increases(base, 1, 2);
    lemma_power_increases(base, 1, 3);
    lemma_power_increases(base, 1, 4);
    lemma_power_increases(base, 1, 5);
}

/// The unit that a value takes is the greatest it reaches: the value is at
/// least the unit's scale and, below `P`, less than the next scale, so that
/// the coefficient is at least one and less than the scale base.
pub proof fn lemma_unit_bounds(base: nat, value: nat)
    requires
        base >= 1,
        exponent_reached(base, value) >= 1,
    ensures
        power(base, exponent_reached(base, value)) <= value,
        exponent_reached(base, value) < 5 ==> value < base * power(
            base,
            exponent_reached(base, value),
        ),
{
    let exponent = exponent_reached(base, value);
    if exponent < 5 {
        assert(power(base, exponent + 1) == base * power(base, exponent));
    }
}

/// Format a quantity of bytes.
#[derive(Debug, Clone, Copy, PartialEq, Eq)]
pub struct Formatter {
    scale_base: u64,
}

/// The formatter of quantities of bytes in [metric system](scale_base::METRIC).
pub fn metric() -> (formatter: Formatter)
    ensures
        formatter.spec_scale_base() == scale_base::METRIC,
{
    Formatter::new(scale_base::METRIC)
}

/// The formatter of quantities of bytes in [binary system](scale_base::BINARY).
pub fn binary() -> (formatter: Formatter)
    ensures
        formatter.spec_scale_base() == scale_base::BINARY,
{
    Formatter::new(scale_base::BINARY)
}

impl Formatter {
    /// The multiplication factor between consecutive units.
    pub closed spec fn spec_scale_base(&self) -> u64 {
        self.scale_base
    }

    /// Create a new formatter.
    pub fn new(scale_base: u64) -> (formatter: Self)
        ensures
            formatter.spec_scale_base() == scale_base,
    {
        Formatter { scale_base }
    }

    /// Multiplication factor.
    pub fn scale_base(self) -> (base: u64)
        ensures
            base == self.spec_scale_base(),
    {
        self.scale_base
    }

    /// Get scale in number.
    pub fn scale(self, exp: u32) -> (scale: u64)
        requires
            power(self.spec_scale_base() as nat, exp as nat) <= u64::MAX,
        ensures
            scale == power(self.spec_scale_base() as nat, exp as nat),
    {
        let base = self.scale_base;
        let mut scale: u64 = 1;
        let mut i: u32 = 0;
        while i < exp
            invariant
                i <= exp,
                base == self.spec_scale_base(),
                power(base as nat, exp as nat) <= u64::MAX,
                scale == power(base as nat, i as nat),
            decreases exp - i,
        {
            proof {
                assert(power(base as nat, (i + 1) as nat) == base * scale);
                if base >= 1 {
                    lemma_power_increases(base as nat, (i + 1) as nat, exp as nat);
                } else {
                    assert(base * scale == 0) by (nonlinear_arith)
                        requires
                            base == 0,
                    ;
                }
                assert(scale * base == base * scale) by (nonlinear_arith);
            }
            scale = scale * base;
            i = i + 1;
        }
        scale
    }

    /// Parse a value according to the prefixing rule.
    ///
    /// The value takes the greatest unit, from `K` (one `scale_base`) up to
    /// `P` (`scale_base` to the fifth power), that it reaches; below `K`,
    /// it stands as it is.
    pub fn parse_value(self, value: u64) -> (parsed: ParsedValue)
        requires
            power(self.spec_scale_base() as nat, 5) <= u64::MAX,
        ensures
            ({
                let base = self.spec_scale_base() as nat;
                let exponent = exponent_reached(base, value as nat);
                if exponent == 0 {
                    parsed == ParsedValue::Small { value: value as u16 }
                } else {
                    parsed == ParsedValue::Big {
                        value,
                        unit: unit_of(exponent),
                        scale: power(base, exponent) as u64,
                        exponent: exponent as usize,
                    }
                }
            }),
            parsed matches ParsedValue::Big { unit, exponent, .. } ==> {
                ||| exponent == 1 && unit == 'K'
                ||| exponent == 2 && unit == 'M'
                ||| exponent == 3 && unit == 'G'
                ||| exponent == 4 && unit == 'T'
                ||| exponent == 5 && unit == 'P'
            },
    {
        let base = self.scale_base;
        proof {
            if base >= 1 {
                lemma_power_increases(base as nat, 4, 5);
                lemma_power_increases(base as nat, 3, 5);
                lemma_power_increases(base as nat, 2, 5);
                lemma_power_increases(base as nat, 1, 5);
            } else {
                reveal_with_fuel(power, 6);
                assert(power(0, 1) == 0 && power(0, 2) == 0 && power(0, 3) == 0 && power(0, 4)
                    == 0);
            }
        }
        let exponents: [u32; 5] = [5, 4, 3, 2, 1];
        let units: [char; 5] = ['P', 'T', 'G', 'M', 'K'];
        for k in 0..5usize
            invariant
                base == self.spec_scale_base(),
                power(base as nat, 5) <= u64::MAX,
                power(base as nat, 4) <= u64::MAX,
                power(base as nat, 3) <= u64::MAX,
                power(base as nat, 2) <= u64::MAX,
                power(base as nat, 1) <= u64::MAX,
                exponents@ == seq![5u32, 4, 3, 2, 1],
                units@ == seq!['P', 'T', 'G', 'M', 'K'],
                forall|j: int| 0 <= j < k ==> value < power(base as nat, (#[trigger] exponents@[j]) as nat),
        {
            let exponent = exponents[k];
            let scale = self.scale(exponent);
            if value >= scale {
                return ParsedValue::Big {
                    value,
                    unit: units[k],
                    scale,
                    exponent: exponent as usize,
                };
            }
        }
        ParsedValue::Small { value: value as u16 }
    }
}

} // verus!
