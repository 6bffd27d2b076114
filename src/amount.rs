//! Signed decimal amounts, held as a mantissa and a decimal scale.
//!
//! Arithmetic and comparison are done by `rust_decimal`; this module states
//! what the ledger relies on from it.

use rust_decimal::Decimal;
use vstd::prelude::*;

verus! {

/// The largest scale (number of fractional digits) an amount may carry.
pub const MAX_SCALE: u32 = 28;

/// The largest magnitude of a mantissa: `2^96 - 1`.
pub const MAX_MANTISSA: i128 = 0xFFFF_FFFF_FFFF_FFFF_FFFF_FFFF;

/// `10^n`.
pub open spec fn pow10(n: nat) -> int
    decreases n,
{
    if n == 0 {
        1
    } else {
        10 * pow10((n - 1) as nat)
    }
}

/// The decimal number `mantissa / 10^scale`. Two amounts are `==` when both
/// their mantissas and their scales are.
#[derive(Clone, Copy, Debug, PartialEq, Eq, Structural)]
pub struct Amount {
    pub mantissa: i128,
    pub scale: u32,
}

/// `a < b` as numbers: `a.mantissa / 10^a.scale < b.mantissa / 10^b.scale`.
pub open spec fn less_than(a: Amount, b: Amount) -> bool {
    a.mantissa * pow10(b.scale as nat) < b.mantissa * pow10(a.scale as nat)
}

/// What `rust_decimal` returns for `a + b`: `None` where the sum overflows.
pub uninterp spec fn decimal_sum(a: Amount, b: Amount) -> Option<Amount>;

/// What `rust_decimal` returns for `a - b`: `None` where the difference overflows.
pub uninterp spec fn decimal_difference(a: Amount, b: Amount) -> Option<Amount>;

impl Amount {
    /// Within the range of a `rust_decimal::Decimal`.
    pub open spec fn wf(self) -> bool {
        &&& self.scale <= MAX_SCALE
        &&& -MAX_MANTISSA <= self.mantissa <= MAX_MANTISSA
    }

    pub open spec fn spec_zero() -> Amount {
        Amount { mantissa: 0, scale: 0 }
    }

    /// Zero, at scale zero.
    pub fn zero() -> (r: Amount)
        ensures
            r == Amount::spec_zero(),
            r.wf(),
    {
        Amount { mantissa: 0, scale: 0 }
    }

    /// `num / 10^scale`.
    pub fn new(num: i64, scale: u32) -> (r: Amount)
        requires
            scale <= MAX_SCALE,
        ensures
            r.mantissa == num,
            r.scale == scale,
            r.wf(),
    {
        Amount { mantissa: num as i128, scale }
    }

    /// `mantissa / 10^scale`, where that is within range.
    pub fn from_parts(mantissa: i128, scale: u32) -> (r: Option<Amount>)
        ensures
            r == (if (Amount { mantissa, scale }).wf() {
                Some(Amount { mantissa, scale })
            } else {
                None
            }),
    {
        if scale <= MAX_SCALE && -MAX_MANTISSA <= mantissa && mantissa <= MAX_MANTISSA {
            Some(Amount { mantissa, scale })
        } else {
            None
        }
    }

    /// Below zero.
    pub fn is_negative(&self) -> (r: bool)
        ensures
            r == (self.mantissa < 0),
    {
        self.mantissa < 0
    }
}

/// Relies on `Decimal::checked_add`: the sum, or `None` on overflow; a
/// `Decimal` is always within range.
#[verifier::external_body]
pub(crate) fn checked_sum(a: &Amount, b: &Amount) -> (r: Option<Amount>)
    requires
        a.wf(),
        b.wf(),
    ensures
        r == decimal_sum(*a, *b),
        r matches Some(v) ==> v.wf(),
{
    let x = Decimal::from_i128_with_scale(a.mantissa, a.scale);
    let y = Decimal::from_i128_with_scale(b.mantissa, b.scale);
    x.checked_add(y).map(|d| Amount { mantissa: d.mantissa(), scale: d.scale() })
}

/// Relies on `Decimal::checked_sub`: the difference, or `None` on overflow; a
/// `Decimal` is always within range.
#[verifier::external_body]
pub(crate) fn checked_difference(a: &Amount, b: &Amount) -> (r: Option<Amount>)
    requires
        a.wf(),
        b.wf(),
    ensures
        r == decimal_difference(*a, *b),
        r matches Some(v) ==> v.wf(),
{
    let x = Decimal::from_i128_with_scale(a.mantissa, a.scale);
    let y = Decimal::from_i128_with_scale(b.mantissa, b.scale);
    x.checked_sub(y).map(|d| Amount { mantissa: d.mantissa(), scale: d.scale() })
}

/// Relies on `Decimal`'s `Ord`, which compares exact values (rescaling to a
/// common scale).
#[verifier::external_body]
pub(crate) fn is_less(a: &Amount, b: &Amount) -> (r: bool)
    requires
        a.wf(),
        b.wf(),
    ensures
        r == less_than(*a, *b),
{
    let x = Decimal::from_i128_with_scale(a.mantissa, a.scale);
    let y = Decimal::from_i128_with_scale(b.mantissa, b.scale);
    x < y
}

} // verus!
