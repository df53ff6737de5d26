//! Exact decimal amounts.
//!
//! An [`Amount`] is a decimal number `mantissa / 10^scale`, with the limits of
//! `rust_decimal::Decimal`: a mantissa below `2^96` in magnitude and a scale of
//! at most 28. The arithmetic is done by `rust_decimal`, which rounds a
//! result that does not fit. This module decides beforehand whether the result
//! fits as it is, and declines the operation where it does not: no amount is
//! ever rounded.

use rust_decimal::Decimal;
use vstd::prelude::*;

verus! {

/// The largest scale (number of digits behind the decimal point).
pub const MAX_SCALE: u32 = 28;

/// `2^96`: every mantissa is smaller than this in magnitude.
pub const MANTISSA_LIMIT: i128 = 0x1_0000_0000_0000_0000_0000_0000;

/// The largest magnitude that, times ten, stays below `2^97`.
const TENFOLD_LIMIT: i128 = 15845632502852867518708790067;

/// `10^n`.
pub open spec fn pow10(n: nat) -> int
    decreases n,
{
    if n == 0 {
        1
    } else {
        10 * pow10((n - 1) as nat)
    }
}

/// Whether `m` can be a mantissa.
pub open spec fn mantissa_fits(m: int) -> bool {
    -MANTISSA_LIMIT < m < MANTISSA_LIMIT
}

/// A power of ten is at least one.
pub proof fn lemma_pow10_positive(n: nat)
    ensures
        pow10(n) >= 1,
    decreases n,
{
    if n > 0 {
        lemma_pow10_positive((n - 1) as nat);
    }
}

/// `10^(a+b)` is `10^a * 10^b`.
pub proof fn lemma_pow10_adds(a: nat, b: nat)
    ensures
        pow10(a + b) == pow10(a) * pow10(b),
    decreases a,
{
    if a > 0 {
        lemma_pow10_adds((a - 1) as nat, b);
        assert(10 * (pow10((a - 1) as nat) * pow10(b)) == (10 * pow10((a - 1) as nat)) * pow10(b))
            by (nonlinear_arith);
    } else {
        assert(pow10(a) * pow10(b) == pow10(b)) by (nonlinear_arith)
            requires
                pow10(a) == 1,
        ;
    }
}

/// A decimal number, `mantissa / 10^scale`.
#[derive(Clone, Copy, Debug)]
pub struct Amount {
    pub mantissa: i128,
    pub scale: u32,
}

impl Amount {
    /// The limits of the representation.
    pub open spec fn wf(self) -> bool {
        &&& mantissa_fits(self.mantissa as int)
        &&& self.scale <= MAX_SCALE
    }

    /// The mantissa that this amount has at scale `s`, for `s` at or above
    /// its own scale.
    pub open spec fn aligned(self, s: nat) -> int {
        self.mantissa * pow10((s - self.scale) as nat)
    }

    /// The amount as a whole number of units of `10^-28`. Two amounts stand
    /// for the same number exactly when their values are equal.
    pub open spec fn value(self) -> int {
        self.aligned(MAX_SCALE as nat)
    }

    /// The same number with the opposite sign.
    pub open spec fn negated(self) -> Amount {
        Amount { mantissa: (-self.mantissa) as i128, scale: self.scale }
    }

    /// The larger of the two scales.
    pub open spec fn common_scale(a: Amount, b: Amount) -> u32 {
        if a.scale >= b.scale {
            a.scale
        } else {
            b.scale
        }
    }

    /// The sum of `a` and `b`, where it can be held without rounding: the
    /// other operand where one is zero, else the sum of the mantissas at the
    /// larger scale, if it is within the limit. A sum that is beyond the
    /// limit at the larger scale has none, even where a smaller scale could
    /// hold it.
    pub open spec fn exact_sum(a: Amount, b: Amount) -> Option<Amount> {
        if a.mantissa == 0 {
            Some(b)
        } else if b.mantissa == 0 {
            Some(a)
        } else {
            let s = Amount::common_scale(a, b);
            let m = a.aligned(s as nat) + b.aligned(s as nat);
            if mantissa_fits(m) {
                Some(Amount { mantissa: m as i128, scale: s })
            } else {
                None
            }
        }
    }

    /// The difference of `a` and `b`, where it can be held without rounding.
    pub open spec fn exact_difference(a: Amount, b: Amount) -> Option<Amount> {
        Amount::exact_sum(a, b.negated())
    }

    /// Zero, at scale 0.
    pub fn zero() -> (r: Amount)
        ensures
            r == (Amount { mantissa: 0, scale: 0 }),
            r.wf(),
            r.value() == 0,
    {
        Amount { mantissa: 0, scale: 0 }
    }

    /// An amount from its parts, if they are within the limits.
    pub fn new(mantissa: i128, scale: u32) -> (r: Option<Amount>)
        ensures
            r is Some <==> mantissa_fits(mantissa as int) && scale <= MAX_SCALE,
            r is Some ==> r.unwrap() == (Amount { mantissa, scale }) && r.unwrap().wf(),
    {
        if scale <= MAX_SCALE && -MANTISSA_LIMIT < mantissa && mantissa < MANTISSA_LIMIT {
            Some(Amount { mantissa, scale })
        } else {
            None
        }
    }

    /// The mantissa.
    pub fn mantissa(&self) -> (r: i128)
        ensures
            r == self.mantissa,
    {
        self.mantissa
    }

    /// The scale.
    pub fn scale(&self) -> (r: u32)
        ensures
            r == self.scale,
    {
        self.scale
    }
}

/// The value of an exact sum is the sum of the values.
pub proof fn lemma_exact_sum_value(a: Amount, b: Amount)
    requires
        a.wf(),
        b.wf(),
        Amount::exact_sum(a, b) is Some,
    ensures
        Amount::exact_sum(a, b).unwrap().wf(),
        Amount::exact_sum(a, b).unwrap().value() == a.value() + b.value(),
{
    if a.mantissa == 0 {
        assert(a.value() == 0) by (nonlinear_arith)
            requires
                a.value() == a.mantissa * pow10((28 - a.scale) as nat),
                a.mantissa == 0,
        ;
    } else if b.mantissa == 0 {
        assert(b.value() == 0) by (nonlinear_arith)
            requires
                b.value() == b.mantissa * pow10((28 - b.scale) as nat),
                b.mantissa == 0,
        ;
    } else {
        let s = Amount::common_scale(a, b);
        let up = pow10((28 - s) as nat);
        let pa = pow10((s - a.scale) as nat);
        let pb = pow10((s - b.scale) as nat);
        lemma_pow10_adds((s - a.scale) as nat, (28 - s) as nat);
        lemma_pow10_adds((s - b.scale) as nat, (28 - s) as nat);
        assert((a.mantissa * pa + b.mantissa * pb) * up == a.mantissa * (pa * up) + b.mantissa * (
        pb * up)) by (nonlinear_arith);
    }
}

/// The value of an exact difference is the difference of the values.
pub proof fn lemma_exact_difference_value(a: Amount, b: Amount)
    requires
        a.wf(),
        b.wf(),
        Amount::exact_difference(a, b) is Some,
    ensures
        Amount::exact_difference(a, b).unwrap().wf(),
        Amount::exact_difference(a, b).unwrap().value() == a.value() - b.value(),
{
    lemma_negated_value(b);
    lemma_exact_sum_value(a, b.negated());
}

/// Negation keeps the limits and negates the value.
pub proof fn lemma_negated_value(a: Amount)
    requires
        a.wf(),
    ensures
        a.negated().wf(),
        a.negated().value() == -a.value(),
{
    let p = pow10((28 - a.scale) as nat);
    assert((-a.mantissa) * p == -(a.mantissa * p)) by (nonlinear_arith);
}

/// Calls `rust_decimal::Decimal::checked_add` on the two amounts, each made
/// into a `Decimal` of the same mantissa and scale, and hands back the
/// mantissa and scale of what it returns. It is called only where the sum
/// can be held without rounding (`Amount::exact_sum`). The contract claims
/// that the call then returns exactly that sum: the other operand where one
/// is zero, else the sum of the mantissas at the larger scale. This is not
/// proved.
#[verifier::external_body]
fn decimal_checked_add(a: Amount, b: Amount) -> (r: Option<Amount>)
    requires
        a.wf(),
        b.wf(),
        Amount::exact_sum(a, b) is Some,
    ensures
        r == Amount::exact_sum(a, b),
{
    let x = Decimal::from_i128_with_scale(a.mantissa, a.scale);
    let y = Decimal::from_i128_with_scale(b.mantissa, b.scale);
    match x.checked_add(y) {
        Some(d) => Some(Amount { mantissa: d.mantissa(), scale: d.scale() }),
        None => None,
    }
}

/// Calls `rust_decimal::Decimal::checked_sub` in the same way, and only
/// where the difference can be held without rounding
/// (`Amount::exact_difference`). The contract claims that the call then
/// returns exactly that difference: the negated second operand where the
/// first is zero, the first where the second is zero, else the difference of
/// the mantissas at the larger scale. This is not proved.
#[verifier::external_body]
fn decimal_checked_sub(a: Amount, b: Amount) -> (r: Option<Amount>)
    requires
        a.wf(),
        b.wf(),
        Amount::exact_difference(a, b) is Some,
    ensures
        r == Amount::exact_difference(a, b),
{
    let x = Decimal::from_i128_with_scale(a.mantissa, a.scale);
    let y = Decimal::from_i128_with_scale(b.mantissa, b.scale);
    match x.checked_sub(y) {
        Some(d) => Some(Amount { mantissa: d.mantissa(), scale: d.scale() }),
        None => None,
    }
}

/// Calls the `>=` of `rust_decimal::Decimal`. The contract claims that it
/// compares the two numbers, whatever their scales. This is not proved.
#[verifier::external_body]
fn decimal_ge(a: Amount, b: Amount) -> (r: bool)
    requires
        a.wf(),
        b.wf(),
    ensures
        r == (a.value() >= b.value()),
{
    let x = Decimal::from_i128_with_scale(a.mantissa, a.scale);
    let y = Decimal::from_i128_with_scale(b.mantissa, b.scale);
    x >= y
}

/// Calls the unary `-` of `rust_decimal::Decimal`. The contract claims that
/// it changes the sign of the mantissa and keeps the scale. This is not
/// proved.
#[verifier::external_body]
fn decimal_neg(a: Amount) -> (r: Amount)
    requires
        a.wf(),
    ensures
        r == a.negated(),
{
    let d = -Decimal::from_i128_with_scale(a.mantissa, a.scale);
    Amount { mantissa: d.mantissa(), scale: d.scale() }
}

/// `m * 10^k`, unless it reaches `2^97` in magnitude.
fn scaled_up(m: i128, k: u32) -> (r: Option<i128>)
    requires
        mantissa_fits(m as int),
        k <= MAX_SCALE,
    ensures
        match r {
            Some(x) => x == m * pow10(k as nat) && -2 * MANTISSA_LIMIT < x < 2 * MANTISSA_LIMIT,
            None => m * pow10(k as nat) <= -2 * MANTISSA_LIMIT || m * pow10(k as nat) >= 2
                * MANTISSA_LIMIT,
        },
{
    let mut x: i128 = m;
    let mut i: u32 = 0;
    proof {
        assert(m * pow10(0) == m) by (nonlinear_arith)
            requires
                pow10(0) == 1,
        ;
    }
    while i < k
        invariant
            i <= k,
            k <= MAX_SCALE,
            x == m * pow10(i as nat),
            -2 * MANTISSA_LIMIT < x < 2 * MANTISSA_LIMIT,
        decreases k - i,
    {
        if x > TENFOLD_LIMIT || x < -TENFOLD_LIMIT {
            proof {
                let rest = pow10((k - i - 1) as nat);
                lemma_pow10_positive((k - i - 1) as nat);
                lemma_pow10_adds((i + 1) as nat, (k - i - 1) as nat);
                assert(m * pow10(k as nat) == (10 * x) * rest) by (nonlinear_arith)
                    requires
                        pow10(k as nat) == (10 * pow10(i as nat)) * rest,
                        x == m * pow10(i as nat),
                ;
                assert((10 * x) * rest <= -2 * MANTISSA_LIMIT || (10 * x) * rest >= 2
                    * MANTISSA_LIMIT) by (nonlinear_arith)
                    requires
                        rest >= 1,
                        10 * x >= 2 * MANTISSA_LIMIT || 10 * x <= -2 * MANTISSA_LIMIT,
                ;
            }
            return None;
        }
        proof {
            assert(m * pow10((i + 1) as nat) == 10 * (m * pow10(i as nat))) by (nonlinear_arith)
                requires
                    pow10((i + 1) as nat) == 10 * pow10(i as nat),
            ;
        }
        x = x * 10;
        i = i + 1;
    }
    Some(x)
}

/// Whether the sum of `a` and `b` can be held without rounding.
fn sum_is_exact(a: Amount, b: Amount) -> (r: bool)
    requires
        a.wf(),
        b.wf(),
    ensures
        r == (Amount::exact_sum(a, b) is Some),
{
    if a.mantissa == 0 || b.mantissa == 0 {
        return true;
    }
    let s: u32 = if a.scale >= b.scale {
        a.scale
    } else {
        b.scale
    };
    let x = scaled_up(a.mantissa, s - a.scale);
    let y = scaled_up(b.mantissa, s - b.scale);
    proof {
        assert(a.scale == s ==> a.aligned(s as nat) == a.mantissa) by (nonlinear_arith)
            requires
                a.aligned(s as nat) == a.mantissa * pow10((s - a.scale) as nat),
                a.scale == s ==> pow10((s - a.scale) as nat) == 1,
        ;
        assert(b.scale == s ==> b.aligned(s as nat) == b.mantissa) by (nonlinear_arith)
            requires
                b.aligned(s as nat) == b.mantissa * pow10((s - b.scale) as nat),
                b.scale == s ==> pow10((s - b.scale) as nat) == 1,
        ;
    }
    match (x, y) {
        (Some(x), Some(y)) => {
            let m: i128 = x + y;
            -MANTISSA_LIMIT < m && m < MANTISSA_LIMIT
        },
        _ => false,
    }
}

impl Amount {
    /// The sum of the two amounts, exactly, or `None` where it could not be
    /// held without rounding.
    pub fn checked_add(self, other: Amount) -> (r: Option<Amount>)
        requires
            self.wf(),
            other.wf(),
        ensures
            r == Amount::exact_sum(self, other),
            r is Some ==> r.unwrap().wf() && r.unwrap().value() == self.value() + other.value(),
    {
        if sum_is_exact(self, other) {
            proof {
                lemma_exact_sum_value(self, other);
            }
            decimal_checked_add(self, other)
        } else {
            None
        }
    }

    /// The difference of the two amounts, exactly, or `None` where it could
    /// not be held without rounding.
    pub fn checked_sub(self, other: Amount) -> (r: Option<Amount>)
        requires
            self.wf(),
            other.wf(),
        ensures
            r == Amount::exact_difference(self, other),
            r is Some ==> r.unwrap().wf() && r.unwrap().value() == self.value() - other.value(),
    {
        proof {
            lemma_negated_value(other);
        }
        if sum_is_exact(self, Amount { mantissa: -other.mantissa, scale: other.scale }) {
            proof {
                lemma_exact_difference_value(self, other);
            }
            decimal_checked_sub(self, other)
        } else {
            None
        }
    }

    /// The same number with the opposite sign.
    pub fn neg(self) -> (r: Amount)
        requires
            self.wf(),
        ensures
            r == self.negated(),
            r.wf(),
            r.value() == -self.value(),
    {
        proof {
            lemma_negated_value(self);
        }
        decimal_neg(self)
    }

    /// Whether this number is at least `other`.
    pub fn ge(self, other: Amount) -> (r: bool)
        requires
            self.wf(),
            other.wf(),
        ensures
            r == (self.value() >= other.value()),
    {
        decimal_ge(self, other)
    }
}

} // verus!
