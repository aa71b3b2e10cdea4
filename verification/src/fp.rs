//! Fixed-point numbers with two decimal places, held as hundredths in an `i32`.
use crate::text::{digits, usize_text};
use vstd::prelude::*;

verus! {

/// A fixed-point number: `self.0` hundredths.
#[derive(Clone, Copy, Debug, PartialEq, Eq, Structural, PartialOrd, Ord)]
pub struct Fp(pub i32);

/// Division that rounds toward zero, as Rust's `/` does on signed integers.
pub open spec fn div_toward_zero(a: int, b: int) -> int
    recommends
        b > 0,
{
    if a >= 0 {
        a / b
    } else {
        -((-a) / b)
    }
}

/// An integer in decimal digits, with a minus sign when negative.
pub open spec fn int_text(n: int) -> Seq<char> {
    if n < 0 {
        "-"@ + digits((-n) as nat)
    } else {
        digits(n as nat)
    }
}

/// `x` hundredths written with two decimals: the whole part rounded toward
/// zero, a point, and the hundredths of the magnitude in two digits.
pub open spec fn fp_text(x: int) -> Seq<char> {
    let h = if x < 0 {
        (-x) % 100
    } else {
        x % 100
    };
    int_text(div_toward_zero(x, 100)) + "."@ + (if h < 10 {
        "0"@
    } else {
        Seq::empty()
    }) + digits(h as nat)
}

/// The sum of the values, in hundredths.
pub open spec fn sum_hundredths(s: Seq<Fp>) -> int
    decreases s.len(),
{
    if s.len() == 0 {
        0
    } else {
        sum_hundredths(s.drop_last()) + s.last().0
    }
}

/// The whole number `x`.
pub fn fp(x: i32) -> (r: Fp)
    requires
        i32::MIN <= x * 100 <= i32::MAX,
    ensures
        r.0 == x * 100,
{
    Fp(x * 100)
}

/// `whole` plus `d` hundredths.
pub fn dec(whole: i32, d: u8) -> (r: Fp)
    requires
        i32::MIN <= whole * 100 <= i32::MAX,
        i32::MIN <= whole * 100 + d <= i32::MAX,
    ensures
        r.0 == whole * 100 + d,
{
    Fp(whole * 100 + d as i32)
}

impl Fp {
    /// The sum.
    pub fn add(self, rhs: Fp) -> (r: Fp)
        requires
            i32::MIN <= self.0 + rhs.0 <= i32::MAX,
        ensures
            r.0 == self.0 + rhs.0,
    {
        Fp(self.0 + rhs.0)
    }

    /// The difference.
    pub fn sub(self, rhs: Fp) -> (r: Fp)
        requires
            i32::MIN <= self.0 - rhs.0 <= i32::MAX,
        ensures
            r.0 == self.0 - rhs.0,
    {
        Fp(self.0 - rhs.0)
    }

    /// The product, cut to hundredths toward zero.
    pub fn mul(self, rhs: Fp) -> (r: Fp)
        requires
            i32::MIN <= self.0 * rhs.0 <= i32::MAX,
        ensures
            r.0 == div_toward_zero(self.0 * rhs.0, 100),
    {
        let p: i32 = self.0 * rhs.0;
        Fp(quotient_toward_zero(p, 100))
    }

    /// The quotient, cut to hundredths toward zero.
    pub fn div(self, rhs: Fp) -> (r: Fp)
        requires
            rhs.0 != 0,
            i32::MIN <= self.0 * 100 <= i32::MAX,
            !(self.0 * 100 == i32::MIN && rhs.0 == -1),
        ensures
            r.0 == (if rhs.0 > 0 {
                div_toward_zero(self.0 * 100, rhs.0 as int)
            } else {
                -div_toward_zero(self.0 * 100, -rhs.0)
            }),
    {
        let n: i32 = self.0 * 100;
        if rhs.0 > 0 {
            Fp(quotient_toward_zero(n, rhs.0 as i64))
        } else {
            let d: i64 = -(rhs.0 as i64);
            let q = quotient_toward_zero(n, d);
            proof {
                if q == i32::MIN {
                    assert(n == i32::MIN && d == 1) by (nonlinear_arith)
                        requires
                            q == div_toward_zero(n as int, d as int),
                            q == i32::MIN,
                            d >= 1,
                            i32::MIN <= n <= i32::MAX,
                    ;
                }
            }
            Fp(-q)
        }
    }

    /// The negation.
    pub fn neg(self) -> (r: Fp)
        requires
            self.0 != i32::MIN,
        ensures
            r.0 == -self.0,
    {
        Fp(-self.0)
    }

    /// The absolute value.
    pub fn abs(&self) -> (r: Self)
        requires
            self.0 != i32::MIN,
        ensures
            r.0 == (if self.0 < 0 {
                -self.0
            } else {
                self.0 as int
            }),
    {
        if self.0 < 0 {
            self.neg()
        } else {
            *self
        }
    }

    /// The value written with two decimals, as its `Display` writes it: the
    /// whole part (rounded toward zero, with a sign when negative), a point,
    /// and the hundredths of the magnitude in two digits.
    pub fn text(&self) -> (r: String)
        requires
            self.0 != i32::MIN,
        ensures
            r@ == fp_text(self.0 as int),
    {
        let whole: i32 = self.0 / 100;
        let hundredths: i32 = if self.0 < 0 {
            (-self.0) % 100
        } else {
            self.0 % 100
        };
        let mut out = String::new();
        if whole < 0 {
            out.append("-");
            out.append(usize_text((-whole) as usize).as_str());
        } else {
            out.append(usize_text(whole as usize).as_str());
        }
        out.append(".");
        if hundredths < 10 {
            out.append("0");
        }
        out.append(usize_text(hundredths as usize).as_str());
        proof {
            assert(whole == div_toward_zero(self.0 as int, 100));
            assert(out@ =~= fp_text(self.0 as int));
        }
        out
    }

    /// The sum of all the values, starting from zero.
    pub fn sum(values: &Vec<Fp>) -> (r: Fp)
        requires
            forall|k: int|
                0 <= k <= values@.len() ==> i32::MIN <= #[trigger] sum_hundredths(
                    values@.take(k),
                ) <= i32::MAX,
        ensures
            r.0 == sum_hundredths(values@),
    {
        let mut acc = fp(0);
        let mut i: usize = 0;
        while i < values.len()
            invariant
                i <= values@.len(),
                forall|k: int|
                    0 <= k <= values@.len() ==> i32::MIN <= #[trigger] sum_hundredths(
                        values@.take(k),
                    ) <= i32::MAX,
                acc.0 == sum_hundredths(values@.take(i as int)),
            decreases values@.len() - i,
        {
            proof {
                assert(values@.take(i as int + 1).drop_last() == values@.take(i as int));
                assert(values@.take(i as int + 1).last() == values@[i as int]);
                assert(i32::MIN <= sum_hundredths(values@.take(i as int + 1)) <= i32::MAX);
            }
            acc = acc.add(values[i]);
            i = i + 1;
        }
        proof {
            assert(values@.take(values@.len() as int) == values@);
        }
        acc
    }
}

/// `n / d` rounded toward zero, for a positive divisor.
fn quotient_toward_zero(n: i32, d: i64) -> (r: i32)
    requires
        d > 0,
        d <= i32::MAX + 1,
    ensures
        r == div_toward_zero(n as int, d as int),
{
    let wide: i64 = n as i64;
    if wide >= 0 {
        proof {
            assert(wide / d <= wide) by (nonlinear_arith)
                requires
                    wide >= 0,
                    d > 0,
            ;
        }
        (wide / d) as i32
    } else {
        let m: i64 = -wide;
        proof {
            assert(m / d <= m) by (nonlinear_arith)
                requires
                    m >= 0,
                    d > 0,
            ;
            assert(m / d >= 0) by (nonlinear_arith)
                requires
                    m >= 0,
                    d > 0,
            ;
            if d >= 2 {
                assert(m / d <= m / 2) by (nonlinear_arith)
                    requires
                        m >= 0,
                        d >= 2,
                ;
            }
        }
        let q: i64 = m / d;
        (-q) as i32
    }
}

} // verus!
