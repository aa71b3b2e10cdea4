//! Fixed-precision decimal numbers as the simulation uses them.
//!
//! A [`Dec`] holds a 96-bit signed mantissa and a scale between 0 and 28, the
//! same two plain values that make up a `rust_decimal::Decimal`. Its value is
//! `mantissa / 10^scale`. Contracts speak of `v()`, the value multiplied by
//! `10^28`, which is always an integer.
//!
//! Arithmetic is carried out by `rust_decimal` itself. Each wrapper below
//! states what the crate computes: the exact result whenever it can be
//! represented, and in every case a result rounded to the nearest unit of its
//! own last place.
use rust_decimal::prelude::ToPrimitive;
use rust_decimal::Decimal;
use vstd::prelude::*;

verus! {

/// The largest mantissa magnitude, `2^96 - 1`.
pub const MAX_MANTISSA: i128 = 79228162514264337593543950335;

/// `10^n`.
pub open spec fn pow10(n: nat) -> int
    decreases n,
{
    if n == 0 {
        1
    } else {
        10 * pow10((n - 1) as nat)
    }
}

/// `10^28`: the value of one whole unit, in the units of [`Dec::v`].
pub open spec fn unit() -> int {
    10000000000000000000000000000
}

/// The largest magnitude (in units of [`Dec::v`]) that arithmetic may produce
/// without the decimal type overflowing.
pub open spec fn limit() -> int {
    (MAX_MANTISSA - 1) * unit()
}

pub open spec fn abs_int(x: int) -> int {
    if x < 0 {
        -x
    } else {
        x
    }
}

/// `x` (in units of [`Dec::v`]) fits in a 96-bit mantissa at scale `s`.
pub open spec fn fits_at(x: int, s: nat) -> bool {
    abs_int(x) <= MAX_MANTISSA * pow10((28 - s) as nat)
}

pub proof fn lemma_pow10_positive(n: nat)
    ensures
        pow10(n) > 0,
    decreases n,
{
    if n > 0 {
        lemma_pow10_positive((n - 1) as nat);
    }
}

pub proof fn lemma_pow10_add(a: nat, b: nat)
    ensures
        pow10(a + b) == pow10(a) * pow10(b),
    decreases a,
{
    if a > 0 {
        lemma_pow10_add((a - 1) as nat, b);
        assert(pow10(a + b) == 10 * pow10((a - 1 + b) as nat));
        assert(10 * (pow10((a - 1) as nat) * pow10(b)) == (10 * pow10((a - 1) as nat)) * pow10(b))
            by (nonlinear_arith);
    }
}

pub proof fn lemma_pow10_monotone(a: nat, b: nat)
    requires
        a <= b,
    ensures
        pow10(a) <= pow10(b),
    decreases b,
{
    lemma_pow10_positive(b);
    if a < b {
        lemma_pow10_monotone(a, (b - 1) as nat);
        lemma_pow10_positive((b - 1) as nat);
    }
}

pub proof fn lemma_unit()
    ensures
        pow10(28) == unit(),
        pow10(0) == 1,
        pow10(1) == 10,
        pow10(2) == 100,
        pow10(27) * 10 == unit(),
{
    reveal_with_fuel(pow10, 29);
}

/// A decimal number `mantissa / 10^scale`.
#[derive(Clone, Copy, Debug)]
pub struct Dec {
    pub mantissa: i128,
    pub scale: u32,
}

impl Dec {
    /// The mantissa fits in 96 bits and the scale is at most 28.
    pub open spec fn wf(self) -> bool {
        -MAX_MANTISSA <= self.mantissa <= MAX_MANTISSA && self.scale <= 28
    }

    /// The value times `10^28`.
    pub open spec fn v(self) -> int {
        self.mantissa * pow10((28 - self.scale) as nat)
    }

    /// One unit of the last place, in units of [`Dec::v`].
    pub open spec fn ulp(self) -> int {
        pow10((28 - self.scale) as nat)
    }

    /// The whole part of the value, rounded down.
    pub open spec fn floor_int(self) -> int {
        self.v() / unit()
    }

    /// `mantissa / 10^scale`, as `rust_decimal::Decimal::new` builds it.
    pub fn new(num: i64, scale: u32) -> (r: Dec)
        requires
            scale <= 28,
        ensures
            r.wf(),
            r.mantissa == num,
            r.scale == scale,
    {
        Dec { mantissa: num as i128, scale }
    }

    /// Zero at scale 0.
    pub fn zero() -> (r: Dec)
        ensures
            r.wf(),
            r.v() == 0,
            r.mantissa == 0,
            r.scale == 0,
    {
        Dec { mantissa: 0, scale: 0 }
    }

    /// One at scale 0.
    pub fn one() -> (r: Dec)
        ensures
            r.wf(),
            r.v() == unit(),
            r.mantissa == 1,
            r.scale == 0,
    {
        proof {
            lemma_unit();
        }
        Dec { mantissa: 1, scale: 0 }
    }

    /// The integer `n` at scale 0.
    pub fn from_u64(n: u64) -> (r: Dec)
        ensures
            r.wf(),
            r.v() == n * unit(),
            r.mantissa == n,
            r.scale == 0,
    {
        proof {
            lemma_unit();
        }
        Dec { mantissa: n as i128, scale: 0 }
    }

    /// The integer `n` at scale 0.
    pub fn from_u32(n: u32) -> (r: Dec)
        ensures
            r.wf(),
            r.v() == n * unit(),
            r.mantissa == n,
            r.scale == 0,
    {
        Dec::from_u64(n as u64)
    }

    /// The integer `n` at scale 0.
    pub fn from_usize(n: usize) -> (r: Dec)
        ensures
            r.wf(),
            r.v() == n * unit(),
            r.mantissa == n,
            r.scale == 0,
    {
        Dec::from_u64(n as u64)
    }

    pub fn lt(&self, other: &Dec) -> (r: bool)
        requires
            self.wf(),
            other.wf(),
        ensures
            r == (self.v() < other.v()),
    {
        dec_lt(self, other)
    }

    pub fn le(&self, other: &Dec) -> (r: bool)
        requires
            self.wf(),
            other.wf(),
        ensures
            r == (self.v() <= other.v()),
    {
        !dec_lt(other, self)
    }

    pub fn gt(&self, other: &Dec) -> (r: bool)
        requires
            self.wf(),
            other.wf(),
        ensures
            r == (self.v() > other.v()),
    {
        dec_lt(other, self)
    }

    pub fn ge(&self, other: &Dec) -> (r: bool)
        requires
            self.wf(),
            other.wf(),
        ensures
            r == (self.v() >= other.v()),
    {
        !dec_lt(self, other)
    }

    /// Whether the mantissa fits in 96 bits and the scale is at most 28.
    pub fn is_wf(&self) -> (r: bool)
        ensures
            r == self.wf(),
    {
        -MAX_MANTISSA <= self.mantissa && self.mantissa <= MAX_MANTISSA && self.scale <= 28
    }

    /// Whether a well-formed value lies within `bound`, in whole units.
    pub fn within_units(&self, bound: u64) -> (r: bool)
        requires
            self.wf(),
        ensures
            r == (abs_int(self.v()) <= bound * unit()),
    {
        proof {
            lemma_unit();
        }
        let b = Dec::from_u64(bound);
        let m = self.abs();
        m.le(&b)
    }

    /// Equality of values, as `==` on decimals compares them.
    pub fn eq_value(&self, other: &Dec) -> (r: bool)
        requires
            self.wf(),
            other.wf(),
        ensures
            r == (self.v() == other.v()),
    {
        !dec_lt(self, other) && !dec_lt(other, self)
    }

    /// The smaller of two values; `self` when they are equal (as `Ord::min`).
    pub fn min(self, other: Dec) -> (r: Dec)
        requires
            self.wf(),
            other.wf(),
        ensures
            r == dmin(self, other),
            r.wf(),
    {
        if dec_lt(&other, &self) {
            other
        } else {
            self
        }
    }

    /// The magnitude, keeping the scale.
    pub fn abs(self) -> (r: Dec)
        requires
            self.wf(),
        ensures
            r == dabs(self),
            r.wf(),
            r.v() == abs_int(self.v()),
    {
        proof {
            lemma_v_sign(self);
        }
        if self.mantissa < 0 {
            proof {
                assert((-self.mantissa) * pow10((28 - self.scale) as nat) == -(self.mantissa
                    * pow10((28 - self.scale) as nat))) by (nonlinear_arith);
            }
            Dec { mantissa: -self.mantissa, scale: self.scale }
        } else {
            proof {
                lemma_pow10_positive((28 - self.scale) as nat);
                assert(self.mantissa * pow10((28 - self.scale) as nat) >= 0) by (nonlinear_arith)
                    requires
                        self.mantissa >= 0,
                        pow10((28 - self.scale) as nat) > 0,
                ;
            }
            self
        }
    }
}

/// `a.min(b)` on decimals: `b` when it is strictly smaller, else `a`.
pub open spec fn dmin(a: Dec, b: Dec) -> Dec {
    if b.v() < a.v() {
        b
    } else {
        a
    }
}

/// `a.abs()`: the same scale, the mantissa's magnitude.
pub open spec fn dabs(a: Dec) -> Dec {
    if a.mantissa < 0 {
        Dec { mantissa: (-a.mantissa) as i128, scale: a.scale }
    } else {
        a
    }
}

/// A decimal that lies within half a unit of its last place of a
/// non-negative number is itself non-negative: rounding to the nearest never
/// crosses zero.
pub proof fn lemma_rounded_nonneg(r: Dec, x: int)
    requires
        r.wf(),
        x >= 0,
        2 * abs_int(r.v() - x) <= r.ulp(),
    ensures
        r.v() >= 0,
{
    lemma_v_sign(r);
    let u = r.ulp();
    let m = r.mantissa as int;
    if m < 0 {
        assert(m * u <= -u) by (nonlinear_arith)
            requires
                m <= -1,
                u > 0,
        ;
    }
}

pub proof fn lemma_v_sign(d: Dec)
    requires
        d.wf(),
    ensures
        d.v() >= 0 <==> d.mantissa >= 0,
        d.v() > 0 <==> d.mantissa > 0,
        d.v() == 0 <==> d.mantissa == 0,
        d.ulp() > 0,
        d.ulp() <= unit(),
        d.v() == d.mantissa * d.ulp(),
{
    lemma_pow10_positive((28 - d.scale) as nat);
    lemma_pow10_monotone((28 - d.scale) as nat, 28);
    lemma_unit();
    let p = pow10((28 - d.scale) as nat);
    assert(d.mantissa >= 0 ==> d.mantissa * p >= 0) by (nonlinear_arith)
        requires
            p > 0,
    ;
    assert(d.mantissa > 0 ==> d.mantissa * p > 0) by (nonlinear_arith)
        requires
            p > 0,
    ;
    assert(d.mantissa < 0 ==> d.mantissa * p < 0) by (nonlinear_arith)
        requires
            p > 0,
    ;
    assert(d.mantissa == 0 ==> d.mantissa * p == 0) by (nonlinear_arith);
    assert(d.v() == d.mantissa * p);
}

/// The result of `<Decimal as Add>::add` on two decimals.
pub uninterp spec fn decimal_sum(a: Dec, b: Dec) -> Dec;

/// The result of `<Decimal as Sub>::sub` on two decimals.
pub uninterp spec fn decimal_difference(a: Dec, b: Dec) -> Dec;

/// The result of `<Decimal as Mul>::mul` on two decimals.
pub uninterp spec fn decimal_product(a: Dec, b: Dec) -> Dec;

/// The result of `<Decimal as Div>::div` on two decimals.
pub uninterp spec fn decimal_quotient(a: Dec, b: Dec) -> Dec;

/// Calls `<rust_decimal::Decimal as Add>::add`.
///
/// Claims: the result is a well-formed decimal whose scale is at most the larger
/// of the operands' scales; it is the exact sum whenever
/// both operands and the sum fit in 96 bits at the larger of the two scales;
/// otherwise the exact sum rounded to the nearest unit of the result's last
/// place. The operation panics only when the sum cannot be represented at
/// scale 0, which `requires` excludes.
#[verifier::external_body]
pub(crate) fn dec_add(a: Dec, b: Dec) -> (r: Dec)
    requires
        a.wf(),
        b.wf(),
        -limit() <= a.v() + b.v() <= limit(),
    ensures
        r.wf(),
        r == decimal_sum(a, b),
        r.scale <= a.scale || r.scale <= b.scale,
        2 * abs_int(r.v() - (a.v() + b.v())) <= r.ulp(),
        ({
            let s = if a.scale >= b.scale {
                a.scale
            } else {
                b.scale
            };
            fits_at(a.v(), s as nat) && fits_at(b.v(), s as nat) && fits_at(a.v() + b.v(), s as nat)
        }) ==> r.v() == a.v() + b.v(),
{
    let x = Decimal::from_i128_with_scale(a.mantissa, a.scale) + Decimal::from_i128_with_scale(
        b.mantissa,
        b.scale,
    );
    Dec { mantissa: x.mantissa(), scale: x.scale() }
}

/// Calls `<rust_decimal::Decimal as Sub>::sub`.
///
/// Claims the same of the difference as [`dec_add`] claims of the sum.
#[verifier::external_body]
pub(crate) fn dec_sub(a: Dec, b: Dec) -> (r: Dec)
    requires
        a.wf(),
        b.wf(),
        -limit() <= a.v() - b.v() <= limit(),
    ensures
        r.wf(),
        r == decimal_difference(a, b),
        r.scale <= a.scale || r.scale <= b.scale,
        2 * abs_int(r.v() - (a.v() - b.v())) <= r.ulp(),
        ({
            let s = if a.scale >= b.scale {
                a.scale
            } else {
                b.scale
            };
            fits_at(a.v(), s as nat) && fits_at(b.v(), s as nat) && fits_at(a.v() - b.v(), s as nat)
        }) ==> r.v() == a.v() - b.v(),
{
    let x = Decimal::from_i128_with_scale(a.mantissa, a.scale) - Decimal::from_i128_with_scale(
        b.mantissa,
        b.scale,
    );
    Dec { mantissa: x.mantissa(), scale: x.scale() }
}

/// Calls `<rust_decimal::Decimal as Mul>::mul`.
///
/// Claims: the result is well formed and its scale is at most the sum of the
/// operands' scales; it is the exact product when the two
/// scales add up to at most 28 and the product of the mantissas fits in 96
/// bits; otherwise the exact product rounded to the nearest unit of the
/// result's last place. The operation panics only when the product cannot be
/// represented at scale 0, which `requires` excludes.
#[verifier::external_body]
pub(crate) fn dec_mul(a: Dec, b: Dec) -> (r: Dec)
    requires
        a.wf(),
        b.wf(),
        abs_int(a.v() * b.v()) <= limit() * unit(),
    ensures
        r.wf(),
        r == decimal_product(a, b),
        r.scale <= a.scale + b.scale,
        2 * abs_int(r.v() * unit() - a.v() * b.v()) <= unit() * r.ulp(),
        a.scale + b.scale <= 28 && abs_int(a.mantissa * b.mantissa) <= MAX_MANTISSA ==> r.v()
            * unit() == a.v() * b.v(),
{
    let x = Decimal::from_i128_with_scale(a.mantissa, a.scale) * Decimal::from_i128_with_scale(
        b.mantissa,
        b.scale,
    );
    Dec { mantissa: x.mantissa(), scale: x.scale() }
}

/// Calls `<rust_decimal::Decimal as Div>::div`.
///
/// Claims: the result is well formed and is the exact quotient rounded to the
/// nearest unit of the result's last place. While a remainder is left the
/// crate keeps adding decimal places until the scale is 28 or one more digit
/// would overflow the mantissa, so the rounding is to a place no coarser than
/// `10^-28` or a `10^-27`-th of the result. The operation panics on a zero
/// divisor or when the quotient cannot be represented at scale 0, which
/// `requires` excludes. Which scale the result ends with is left unsaid.
#[verifier::external_body]
pub(crate) fn dec_div(a: Dec, b: Dec) -> (r: Dec)
    requires
        a.wf(),
        b.wf(),
        b.v() != 0,
        abs_int(a.v()) <= (MAX_MANTISSA - 1) * abs_int(b.v()),
    ensures
        r.wf(),
        r == decimal_quotient(a, b),
        2 * abs_int(r.v() * b.v() - a.v() * unit()) <= abs_int(b.v()) * r.ulp(),
        2 * abs_int(r.v() * b.v() - a.v() * unit()) <= abs_int(b.v()) * (1 + abs_int(r.v())
            / 1000000000000000000000000000),
{
    let x = Decimal::from_i128_with_scale(a.mantissa, a.scale) / Decimal::from_i128_with_scale(
        b.mantissa,
        b.scale,
    );
    Dec { mantissa: x.mantissa(), scale: x.scale() }
}

/// Calls `<rust_decimal::Decimal as PartialOrd>::lt`, which compares values.
#[verifier::external_body]
pub(crate) fn dec_lt(a: &Dec, b: &Dec) -> (r: bool)
    requires
        a.wf(),
        b.wf(),
    ensures
        r == (a.v() < b.v()),
{
    Decimal::from_i128_with_scale(a.mantissa, a.scale) < Decimal::from_i128_with_scale(
        b.mantissa,
        b.scale,
    )
}

/// Calls `rust_decimal::Decimal::floor`: the largest integer not above the
/// value, at scale 0.
#[verifier::external_body]
pub(crate) fn dec_floor(a: &Dec) -> (r: Dec)
    requires
        a.wf(),
    ensures
        r.wf(),
        r.scale == 0,
        r.v() == a.floor_int() * unit(),
{
    let x = Decimal::from_i128_with_scale(a.mantissa, a.scale).floor();
    Dec { mantissa: x.mantissa(), scale: x.scale() }
}

/// Calls `<rust_decimal::Decimal as ToPrimitive>::to_u64`: `None` for a
/// negative value or one whose whole part exceeds `u64::MAX`, else the whole
/// part with the fraction dropped.
#[verifier::external_body]
pub(crate) fn dec_to_u64(a: &Dec) -> (r: Option<u64>)
    requires
        a.wf(),
    ensures
        r == (if a.v() < 0 || a.floor_int() > u64::MAX {
            None::<u64>
        } else {
            Some(a.floor_int() as u64)
        }),
{
    Decimal::from_i128_with_scale(a.mantissa, a.scale).to_u64()
}

/// The text that `<rust_decimal::Decimal as Display>` writes for a decimal.
pub uninterp spec fn decimal_text(d: Dec) -> Seq<char>;

/// Calls `ToString::to_string` on the `rust_decimal::Decimal` with the
/// decimal's mantissa and scale: its digits, with as many after the point as
/// the scale, and a sign when negative. The text is named, not spelled out.
/// Building the decimal panics for a mantissa beyond 96 bits or a scale
/// beyond 28, which `requires` excludes.
#[verifier::external_body]
pub(crate) fn dec_text(d: &Dec) -> (r: String)
    requires
        d.wf(),
    ensures
        r@ == decimal_text(*d),
{
    Decimal::from_i128_with_scale(d.mantissa, d.scale).to_string()
}

/// The text that `<rust_decimal::Decimal as Display>` writes for a decimal
/// with a precision of `places`: that many digits after the point.
pub uninterp spec fn decimal_fixed(d: Dec, places: nat) -> Seq<char>;

/// Formats the `rust_decimal::Decimal` with the decimal's mantissa and scale
/// through `Display` with a precision of `places`: its digits, with `places`
/// after the point, and a sign when negative. The text is named, not spelled
/// out. Building the decimal panics for a mantissa beyond 96 bits or a scale
/// beyond 28, which `requires` excludes.
#[verifier::external_body]
pub(crate) fn dec_fixed(d: &Dec, places: usize) -> (r: String)
    requires
        d.wf(),
    ensures
        r@ == decimal_fixed(*d, places as nat),
{
    format!("{:.*}", places, Decimal::from_i128_with_scale(d.mantissa, d.scale))
}

/// Calls `<rust_decimal::Decimal as ToPrimitive>::to_u32`: `None` for a
/// negative value or one whose whole part exceeds `u32::MAX`, else the whole
/// part with the fraction dropped.
#[verifier::external_body]
pub(crate) fn dec_to_u32(a: &Dec) -> (r: Option<u32>)
    requires
        a.wf(),
    ensures
        r == (if a.v() < 0 || a.floor_int() > u32::MAX {
            None::<u32>
        } else {
            Some(a.floor_int() as u32)
        }),
{
    Decimal::from_i128_with_scale(a.mantissa, a.scale).to_u32()
}

/// `x` (in units of [`Dec::v`]) stays below the overflow margin at scale `s`:
/// arithmetic on decimals of scale at most `s` whose values stay within this
/// bound is exact.
pub open spec fn within(x: int, s: nat) -> bool {
    abs_int(x) <= (MAX_MANTISSA - 1) * pow10((28 - s) as nat)
}

pub proof fn lemma_within_mono(x: int, s1: nat, s2: nat)
    requires
        s1 <= s2 <= 28,
        within(x, s2),
    ensures
        within(x, s1),
        fits_at(x, s1),
        -limit() <= x <= limit(),
{
    lemma_pow10_monotone((28 - s2) as nat, (28 - s1) as nat);
    lemma_pow10_monotone((28 - s1) as nat, 28);
    lemma_pow10_positive((28 - s2) as nat);
    lemma_unit();
    let a = pow10((28 - s2) as nat);
    let b = pow10((28 - s1) as nat);
    assert((MAX_MANTISSA - 1) * a <= (MAX_MANTISSA - 1) * b) by (nonlinear_arith)
        requires
            a <= b,
    ;
    assert((MAX_MANTISSA - 1) * b <= MAX_MANTISSA * b) by (nonlinear_arith)
        requires
            0 < b,
    ;
    assert((MAX_MANTISSA - 1) * b <= (MAX_MANTISSA - 1) * unit()) by (nonlinear_arith)
        requires
            b <= unit(),
    ;
}

/// The exact sum of two decimals of scale at most `s` when everything stays
/// within the bound at `s`.
pub proof fn lemma_exact_sum(a: Dec, b: Dec, s: nat)
    requires
        a.wf(),
        b.wf(),
        a.scale <= s <= 28,
        b.scale <= s,
        within(a.v(), s),
        within(b.v(), s),
        within(a.v() + b.v(), s),
    ensures
        -limit() <= a.v() + b.v() <= limit(),
        fits_at(a.v(), (if a.scale >= b.scale { a.scale } else { b.scale }) as nat),
        fits_at(b.v(), (if a.scale >= b.scale { a.scale } else { b.scale }) as nat),
        fits_at(a.v() + b.v(), (if a.scale >= b.scale { a.scale } else { b.scale }) as nat),
{
    let m = (if a.scale >= b.scale { a.scale } else { b.scale }) as nat;
    lemma_within_mono(a.v(), m, s);
    lemma_within_mono(b.v(), m, s);
    lemma_within_mono(a.v() + b.v(), m, s);
}

/// The exact difference of two decimals of scale at most `s` when everything
/// stays within the bound at `s`.
pub proof fn lemma_exact_difference(a: Dec, b: Dec, s: nat)
    requires
        a.wf(),
        b.wf(),
        a.scale <= s <= 28,
        b.scale <= s,
        within(a.v(), s),
        within(b.v(), s),
        within(a.v() - b.v(), s),
    ensures
        -limit() <= a.v() - b.v() <= limit(),
        fits_at(a.v(), (if a.scale >= b.scale { a.scale } else { b.scale }) as nat),
        fits_at(b.v(), (if a.scale >= b.scale { a.scale } else { b.scale }) as nat),
        fits_at(a.v() - b.v(), (if a.scale >= b.scale { a.scale } else { b.scale }) as nat),
{
    let m = (if a.scale >= b.scale { a.scale } else { b.scale }) as nat;
    lemma_within_mono(a.v(), m, s);
    lemma_within_mono(b.v(), m, s);
    lemma_within_mono(a.v() - b.v(), m, s);
}

/// Magnitudes multiply.
pub proof fn lemma_abs_mul_le(a: int, b: int, x: int, y: int)
    requires
        abs_int(a) <= x,
        abs_int(b) <= y,
    ensures
        abs_int(a * b) <= x * y,
        abs_int(a * b) == abs_int(a) * abs_int(b),
{
    assert(abs_int(a * b) == abs_int(a) * abs_int(b)) by (nonlinear_arith);
    assert(abs_int(a) * abs_int(b) <= x * y) by (nonlinear_arith)
        requires
            0 <= abs_int(a) <= x,
            0 <= abs_int(b) <= y,
    ;
}

/// How far a rounded product can be from zero: `|r| * 10^28 <= |a * b| + 10^56`.
pub proof fn lemma_product_size(a: Dec, b: Dec, r: Dec)
    requires
        r.wf(),
        2 * abs_int(r.v() * unit() - a.v() * b.v()) <= unit() * r.ulp(),
    ensures
        abs_int(r.v()) * unit() <= abs_int(a.v() * b.v()) + unit() * unit(),
{
    lemma_v_sign(r);
    let x = r.v() * unit();
    let p = a.v() * b.v();
    assert(unit() * r.ulp() <= unit() * unit()) by (nonlinear_arith)
        requires
            r.ulp() <= unit(),
            unit() > 0,
    ;
    assert(abs_int(x) <= abs_int(p) + unit() * unit());
    assert(abs_int(x) == abs_int(r.v()) * unit()) by (nonlinear_arith)
        requires
            x == r.v() * unit(),
            unit() > 0,
    ;
}

/// A rounded sum or difference is within a unit of the exact one.
pub proof fn lemma_rounded_size(exact: int, r: Dec)
    requires
        r.wf(),
        2 * abs_int(r.v() - exact) <= r.ulp(),
    ensures
        abs_int(r.v()) <= abs_int(exact) + unit(),
{
    lemma_v_sign(r);
}

/// How far a rounded quotient can be from zero: `|r| * |b| <= |a| * 10^28 + |b| * 10^28`.
pub proof fn lemma_quotient_size(a: Dec, b: Dec, r: Dec)
    requires
        r.wf(),
        b.v() != 0,
        2 * abs_int(r.v() * b.v() - a.v() * unit()) <= abs_int(b.v()) * r.ulp(),
    ensures
        abs_int(r.v()) * abs_int(b.v()) <= abs_int(a.v()) * unit() + abs_int(b.v()) * unit(),
{
    lemma_v_sign(r);
    assert(abs_int(b.v()) * r.ulp() <= abs_int(b.v()) * unit()) by (nonlinear_arith)
        requires
            r.ulp() <= unit(),
            abs_int(b.v()) >= 0,
    ;
    assert(abs_int(r.v() * b.v()) == abs_int(r.v()) * abs_int(b.v())) by (nonlinear_arith);
    assert(abs_int(a.v() * unit()) == abs_int(a.v()) * unit()) by (nonlinear_arith)
        requires
            unit() > 0,
    ;
}

} // verus!
