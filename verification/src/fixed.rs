//! Saturating 16.16 fixed-point arithmetic and the integer square root.

use vstd::prelude::*;

verus! {

/// The fixed-point number 1.0.
pub const ONE: i32 = 65536;

/// One second, in nanoseconds.
pub const NANOS_PER_SECOND: u64 = 1_000_000_000;

/// `v` brought to the nearest value that an `i32` holds.
pub open spec fn saturated(v: int) -> int {
    if v < i32::MIN {
        i32::MIN as int
    } else if v > i32::MAX {
        i32::MAX as int
    } else {
        v
    }
}

/// The fixed-point product of `a` and `b`: the exact product of the two
/// numbers, rounded down to a multiple of 1/65536.
pub open spec fn fixed_product(a: int, b: int) -> int {
    (a * b) / (ONE as int)
}

/// `r` is the integer part of the square root of `n`.
pub open spec fn is_floor_sqrt(n: nat, r: nat) -> bool {
    r * r <= n < (r + 1) * (r + 1)
}

/// The integer part of the square root of `n`.
pub open spec fn floor_sqrt(n: nat) -> nat {
    choose|r: nat| is_floor_sqrt(n, r)
}

/// Every natural number has an integer square root.
pub proof fn lemma_floor_sqrt_exists(n: nat)
    ensures
        is_floor_sqrt(n, floor_sqrt(n)),
    decreases n,
{
    if n == 0 {
        assert(is_floor_sqrt(0, 0)) by (nonlinear_arith);
    } else {
        lemma_floor_sqrt_exists((n - 1) as nat);
        let r = floor_sqrt((n - 1) as nat);
        if n < (r + 1) * (r + 1) {
            assert(is_floor_sqrt(n, r));
        } else {
            assert((r + 2) * (r + 2) == (r + 1) * (r + 1) + 2 * r + 3) by (nonlinear_arith);
            assert(is_floor_sqrt(n, (r + 1) as nat));
        }
    }
}

/// The integer square root is the only number between whose square and whose
/// successor's square `n` lies.
pub proof fn lemma_floor_sqrt_unique(n: nat, r: nat)
    requires
        is_floor_sqrt(n, r),
    ensures
        r == floor_sqrt(n),
{
    let s = floor_sqrt(n);
    if r < s {
        assert((r + 1) * (r + 1) <= s * s) by (nonlinear_arith)
            requires
                r + 1 <= s,
        ;
    } else if s < r {
        assert((s + 1) * (s + 1) <= r * r) by (nonlinear_arith)
            requires
                s + 1 <= r,
        ;
    }
}

/// Squaring keeps the order of natural numbers.
proof fn lemma_square_monotonic(a: nat, b: nat)
    requires
        a <= b,
    ensures
        a * a <= b * b,
{
    assert(a * a <= b * b) by (nonlinear_arith)
        requires
            a <= b,
    ;
}

/// The integer square root grows with its argument.
pub proof fn lemma_floor_sqrt_monotonic(m: nat, n: nat)
    requires
        m <= n,
    ensures
        floor_sqrt(m) <= floor_sqrt(n),
{
    lemma_floor_sqrt_exists(m);
    lemma_floor_sqrt_exists(n);
    let a = floor_sqrt(m);
    let b = floor_sqrt(n);
    if b < a {
        lemma_square_monotonic(b + 1, a);
    }
}

/// The integer square root of a square is its base.
pub proof fn lemma_floor_sqrt_of_square(r: nat)
    ensures
        floor_sqrt(r * r) == r,
{
    assert(r * r < (r + 1) * (r + 1)) by (nonlinear_arith);
    lemma_floor_sqrt_unique(r * r, r);
}

/// Brings `v` to the nearest value that an `i32` holds.
pub fn saturate(v: i128) -> (r: i32)
    ensures
        r == saturated(v as int),
{
    if v < i32::MIN as i128 {
        i32::MIN
    } else if v > i32::MAX as i128 {
        i32::MAX
    } else {
        v as i32
    }
}

/// Adds two fixed-point numbers, saturating at the ends of the range.
pub fn fixed_add(a: i32, b: i32) -> (r: i32)
    ensures
        r == saturated(a + b),
{
    saturate(a as i128 + b as i128)
}

/// Subtracts `b` from `a`, saturating at the ends of the range.
pub fn fixed_sub(a: i32, b: i32) -> (r: i32)
    ensures
        r == saturated(a - b),
{
    saturate(a as i128 - b as i128)
}

/// The negative of `a`; the one number without a negative in range gives
/// the largest number.
pub fn fixed_neg(a: i32) -> (r: i32)
    ensures
        r == saturated(-a),
{
    saturate(-(a as i128))
}

/// Multiplies two fixed-point numbers, rounding down and saturating at the
/// ends of the range.
pub fn fixed_mul(a: i32, b: i32) -> (r: i32)
    ensures
        r == saturated(fixed_product(a as int, b as int)),
{
    let wide: i128 = a as i128;
    assert(-0x4000_0000_0000_0000 <= wide * b <= 0x4000_0000_0000_0000) by (nonlinear_arith)
        requires
            -0x8000_0000 <= wide <= 0x7fff_ffff,
            -0x8000_0000 <= b <= 0x7fff_ffff,
    ;
    let product: i128 = wide * (b as i128);
    // Rounding down, also below zero.
    let one: i128 = ONE as i128;
    let quotient: i128 = if product >= 0 {
        product / one
    } else {
        -((-product + (one - 1)) / one)
    };
    saturate(quotient)
}

/// The integer part of the square root of `n`.
pub fn isqrt(n: u128) -> (r: u64)
    ensures
        r == floor_sqrt(n as nat),
{
    let mut low: u128 = 0;
    let mut high: u128 = 0x1_0000_0000_0000_0000;
    while high - low > 1
        invariant
            low < high <= 0x1_0000_0000_0000_0000,
            low * low <= n < high * high,
        decreases high - low,
    {
        let middle: u128 = low + (high - low) / 2;
        assert(middle * middle <= 0xffff_ffff_ffff_ffff * 0xffff_ffff_ffff_ffff)
            by (nonlinear_arith)
            requires
                0 <= middle <= 0xffff_ffff_ffff_ffff,
        ;
        if middle * middle <= n {
            low = middle;
        } else {
            high = middle;
        }
    }
    proof {
        lemma_floor_sqrt_unique(n as nat, low as nat);
    }
    low as u64
}

} // verus!
