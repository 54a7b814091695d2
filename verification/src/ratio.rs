//! Exact arithmetic on non-negative fractions: scaling a whole number by a
//! ratio, or by the square root of a ratio, rounded down.

use vstd::arithmetic::div_mod::lemma_fundamental_div_mod;
use vstd::arithmetic::div_mod::lemma_fundamental_div_mod_converse;
use vstd::arithmetic::div_mod::lemma_mod_pos_bound;
use vstd::prelude::*;

verus! {

/// A non-negative fraction `numerator / denominator`.
#[derive(Debug, Clone, Copy, PartialEq, Eq, Structural)]
pub struct Ratio {
    pub numerator: u128,
    pub denominator: u128,
}

/// Whether `r` is the largest whole number whose square does not exceed `x`.
pub open spec fn is_floor_sqrt(x: nat, r: nat) -> bool {
    r * r <= x < (r + 1) * (r + 1)
}

/// The largest whole number whose square does not exceed `x`.
pub open spec fn floor_sqrt(x: nat) -> nat {
    choose|r: nat| is_floor_sqrt(x, r)
}

impl Ratio {
    /// A ratio has a value only with a denominator other than zero.
    pub open spec fn wf(&self) -> bool {
        self.denominator > 0
    }

    /// `floor(value * ratio)`.
    pub open spec fn scale(&self, value: nat) -> nat {
        (value * self.numerator as nat) / (self.denominator as nat)
    }

    /// `floor(value * sqrt(ratio))`.
    ///
    /// A whole number is at most `value * sqrt(ratio)` exactly when its
    /// square is at most `value * value * ratio`, so the rounded root of the
    /// rounded product is the rounded product of the root.
    pub open spec fn scale_root(&self, value: nat) -> nat {
        floor_sqrt(self.scale(value * value))
    }

    /// The ratio of two whole numbers, or `None` where the second is zero.
    pub fn new(numerator: u128, denominator: u128) -> (ratio: Option<Ratio>)
        ensures
            denominator == 0 ==> ratio is None,
            denominator != 0 ==> ratio == Some(Ratio { numerator, denominator }),
    {
        if denominator == 0 {
            None
        } else {
            Some(Ratio { numerator, denominator })
        }
    }

    /// Whether the ratio is strictly less than one.
    pub fn is_below_one(&self) -> (below: bool)
        ensures
            below == (self.numerator < self.denominator),
    {
        self.numerator < self.denominator
    }

    /// `floor(value * ratio)` for a ratio below one; `None` for any other,
    /// which makes nothing smaller.
    pub fn shrink(&self, value: u64) -> (scaled: Option<u64>)
        ensures
            self.numerator < self.denominator ==> scaled == Some(self.scale(value as nat) as u64)
                && self.scale(value as nat) <= value,
            self.numerator >= self.denominator ==> scaled is None,
    {
        if self.numerator >= self.denominator {
            return None;
        }
        let (quotient, remainder) = mul_div_rem(value, self.numerator, self.denominator);
        proof {
            lemma_fundamental_div_mod_converse(
                value as int * self.numerator as int,
                self.denominator as int,
                quotient as int,
                remainder as int,
            );
        }
        Some(quotient as u64)
    }

    /// `floor(value * sqrt(ratio))` for a ratio below one; `None` for any
    /// other, which makes nothing smaller.
    pub fn shrink_root(&self, value: u32) -> (scaled: Option<u32>)
        ensures
            self.numerator < self.denominator ==> scaled == Some(
                self.scale_root(value as nat) as u32,
            ) && self.scale_root(value as nat) <= value,
            self.numerator >= self.denominator ==> scaled is None,
    {
        let wide: u64 = value as u64;
        assert(wide * wide <= 0xFFFF_FFFF * 0xFFFF_FFFF) by (nonlinear_arith)
            requires
                wide <= 0xFFFF_FFFF,
        ;
        let square: u64 = wide * wide;
        match self.shrink(square) {
            None => None,
            Some(scaled_square) => {
                let root: u32 = floor_sqrt_u64(scaled_square);
                proof {
                    if root > value {
                        lemma_square_is_monotonic(value as nat + 1, root as nat);
                        assert((value as nat + 1) * (value as nat + 1) > value as nat
                            * value as nat) by (nonlinear_arith);
                    }
                }
                Some(root)
            },
        }
    }
}

/// Squaring keeps the order of whole numbers.
pub proof fn lemma_square_is_monotonic(a: nat, b: nat)
    requires
        a <= b,
    ensures
        a * a <= b * b,
{
    assert(a * a <= b * b) by (nonlinear_arith)
        requires
            a <= b,
    ;
}

/// `floor_sqrt(x)` is the one whole number `r` with `r * r <= x < (r + 1) * (r + 1)`.
pub proof fn lemma_floor_sqrt_unique(x: nat, r: nat)
    requires
        is_floor_sqrt(x, r),
    ensures
        floor_sqrt(x) == r,
{
    let c = floor_sqrt(x);
    assert(is_floor_sqrt(x, c));
    if c < r {
        lemma_square_is_monotonic(c + 1, r);
    }
    if r < c {
        lemma_square_is_monotonic(r + 1, c);
    }
}

/// Every whole number lies between the squares of `floor_sqrt` of it and of
/// the next whole number.
pub proof fn lemma_floor_sqrt_bounds(x: nat)
    ensures
        is_floor_sqrt(x, floor_sqrt(x)),
    decreases x,
{
    if x == 0 {
        assert(is_floor_sqrt(0, 0)) by (nonlinear_arith);
        lemma_floor_sqrt_unique(x, 0);
    } else {
        let below = (x - 1) as nat;
        lemma_floor_sqrt_bounds(below);
        let r = floor_sqrt(below);
        if x < (r + 1) * (r + 1) {
            lemma_floor_sqrt_unique(x, r);
        } else {
            assert((r + 1) * (r + 1) <= x);
            assert(x < (r + 2) * (r + 2)) by (nonlinear_arith)
                requires
                    x <= (r + 1) * (r + 1),
            ;
            lemma_floor_sqrt_unique(x, r + 1);
        }
    }
}

/// `scale` rounds down: `ratio.scale(value)` is the largest whole number
/// that is at most `value * numerator / denominator`.
pub proof fn lemma_scale_rounds_down(ratio: Ratio, value: nat)
    requires
        ratio.wf(),
    ensures
        ratio.scale(value) * ratio.denominator <= value * ratio.numerator < (ratio.scale(value)
            + 1) * ratio.denominator,
{
    let product = (value * ratio.numerator as nat) as int;
    let d = ratio.denominator as int;
    lemma_fundamental_div_mod(product, d);
    lemma_mod_pos_bound(product, d);
    let quotient = product / d;
    let rest = product % d;
    assert(quotient * d <= product < (quotient + 1) * d) by (nonlinear_arith)
        requires
            product == d * quotient + rest,
            0 <= rest < d,
    ;
    assert(quotient >= 0) by (nonlinear_arith)
        requires
            product < (quotient + 1) * d,
            product >= 0,
            d > 0,
    ;
}

/// `scale_root` rounds down: `ratio.scale_root(value)` is the largest
/// whole number `v` with `v * v <= value * value * numerator / denominator`,
/// which is to say the largest that is at most `value * sqrt(ratio)`.
pub proof fn lemma_scale_root_rounds_down(ratio: Ratio, value: nat)
    requires
        ratio.wf(),
    ensures
        ({
            let root = ratio.scale_root(value);
            root * root * ratio.denominator <= value * value * ratio.numerator < (root + 1) * (root
                + 1) * ratio.denominator
        }),
{
    let square = value * value;
    let scaled = ratio.scale(square);
    let root = ratio.scale_root(value);
    let d = ratio.denominator as nat;
    lemma_scale_rounds_down(ratio, square);
    lemma_floor_sqrt_bounds(scaled);
    assert(root * root * d <= scaled * d) by (nonlinear_arith)
        requires
            root * root <= scaled,
    ;
    assert((scaled + 1) * d <= (root + 1) * (root + 1) * d) by (nonlinear_arith)
        requires
            scaled + 1 <= (root + 1) * (root + 1),
    ;
}

/// A ratio of at least one does not make a number smaller, nor does its root.
pub proof fn lemma_scale_at_least_one(ratio: Ratio, value: nat)
    requires
        ratio.wf(),
        ratio.numerator >= ratio.denominator,
    ensures
        ratio.scale(value) >= value,
        ratio.scale_root(value) >= value,
{
    let n = ratio.numerator as int;
    let d = ratio.denominator as int;
    lemma_scale_grows(value as int, n, d);
    lemma_scale_grows((value * value) as int, n, d);
    let scaled_square = ratio.scale(value * value);
    lemma_floor_sqrt_bounds(scaled_square);
    let root = floor_sqrt(scaled_square);
    if root < value {
        lemma_square_is_monotonic(root + 1, value);
    }
}

proof fn lemma_scale_grows(value: int, n: int, d: int)
    requires
        0 <= value,
        0 < d <= n,
    ensures
        (value * n) / d >= value,
{
    let product = value * n;
    let quotient = product / d;
    lemma_fundamental_div_mod(product, d);
    assert(product == d * quotient + product % d);
    assert(0 <= product % d < d);
    assert(value * d <= product) by (nonlinear_arith)
        requires
            0 <= value,
            0 < d <= n,
            product == value * n,
    ;
    if quotient < value {
        assert(d * quotient + d <= d * value) by (nonlinear_arith)
            requires
                quotient + 1 <= value,
                0 < d,
        ;
        assert(d * value == value * d) by (nonlinear_arith);
    }
}

/// The multiple of `d` nearest below `a * n`, and what is left over.
fn mul_div_rem(a: u64, n: u128, d: u128) -> (out: (u128, u128))
    requires
        n < d,
    ensures
        a as int * n as int == out.0 as int * d as int + out.1 as int,
        out.1 < d,
        out.0 <= a,
    decreases a,
{
    if a == 0 {
        assert(0 * n as int == 0 * d as int + 0) by (nonlinear_arith);
        return (0, 0);
    }
    let half: u64 = a / 2;
    let (q, r) = mul_div_rem(half, n, d);
    let mut quotient: u128 = q + q;
    let mut remainder: u128 = r;
    if r >= d - r {
        remainder = r - (d - r);
        quotient = quotient + 1;
    } else {
        remainder = r + r;
    }
    assert(2 * (half as int * n as int) == quotient as int * d as int + remainder as int)
        by (nonlinear_arith)
        requires
            half as int * n as int == q as int * d as int + r as int,
            (quotient == 2 * q + 1 && remainder as int == 2 * r - d) || (quotient == 2 * q
                && remainder == 2 * r),
    ;
    if a % 2 == 1 {
        let doubled: u128 = quotient;
        let left: u128 = remainder;
        if remainder >= d - n {
            remainder = remainder - (d - n);
            quotient = quotient + 1;
        } else {
            remainder = remainder + n;
        }
        assert(a as int * n as int == quotient as int * d as int + remainder as int)
            by (nonlinear_arith)
            requires
                a as int == 2 * half as int + 1,
                2 * (half as int * n as int) == doubled as int * d as int + left as int,
                (quotient == doubled + 1 && remainder as int == left + n - d) || (quotient
                    == doubled && remainder == left + n),
        ;
    } else {
        assert(a as int * n as int == 2 * (half as int * n as int)) by (nonlinear_arith)
            requires
                a as int == 2 * half as int,
        ;
    }
    assert(quotient <= a) by (nonlinear_arith)
        requires
            a as int * n as int == quotient as int * d as int + remainder as int,
            0 <= n < d,
            0 <= remainder,
            0 <= quotient,
            0 <= a,
    ;
    (quotient, remainder)
}

/// The whole part of the square root of `x`.
fn floor_sqrt_u64(x: u64) -> (root: u32)
    ensures
        root == floor_sqrt(x as nat),
        is_floor_sqrt(x as nat, root as nat),
{
    let mut low: u64 = 0;
    let mut high: u64 = 0x1_0000_0000;
    assert(low * low <= x);
    assert(x < high * high) by (nonlinear_arith)
        requires
            high == 0x1_0000_0000,
            x <= 0xFFFF_FFFF_FFFF_FFFF,
    ;
    while high - low > 1
        invariant
            low < high <= 0x1_0000_0000,
            low * low <= x < high * high,
        decreases high - low,
    {
        let middle: u64 = low + (high - low) / 2;
        assert(middle * middle <= 0xFFFF_FFFF * 0xFFFF_FFFF) by (nonlinear_arith)
            requires
                middle <= 0xFFFF_FFFF,
        ;
        if middle * middle <= x {
            low = middle;
        } else {
            high = middle;
        }
    }
    proof {
        lemma_floor_sqrt_unique(x as nat, low as nat);
    }
    low as u32
}

} // verus!
