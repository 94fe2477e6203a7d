//! Fixed-point money and quantities.
//!
//! Every amount, price and quantity is an integer count of ten-thousandths
//! (four decimal places). Rounding to four places is round-half-to-even.
use vstd::prelude::*;

verus! {

/// Ten-thousandths per whole unit.
pub const SCALE: i64 = 10000;

/// Largest magnitude of an amount, price or quantity the library accepts.
pub const MAX_AMOUNT: i64 = 1000000000000000;

/// Half-to-even rounding of `n / d` for `n >= 0`, `d > 0`.
pub open spec fn round_nonneg(n: int, d: int) -> int {
    let q = n / d;
    let r = n % d;
    if 2 * r < d {
        q
    } else if 2 * r > d {
        q + 1
    } else if q % 2 == 0 {
        q
    } else {
        q + 1
    }
}

/// `n / d` rounded to the nearest integer, ties to even (symmetric in sign).
pub open spec fn round_half_even(n: int, d: int) -> int {
    if n >= 0 {
        round_nonneg(n, d)
    } else {
        -round_nonneg(-n, d)
    }
}

/// Product of two fixed-point values, rounded back to four places.
pub open spec fn scaled_mul(a: int, b: int) -> int {
    round_half_even(a * b, SCALE as int)
}

/// The rounded quotient lies within half a step of the exact one.
pub proof fn lemma_round_close(n: int, d: int)
    requires
        n >= 0,
        d > 0,
    ensures
        0 <= round_nonneg(n, d) <= n,
        -d <= 2 * (round_nonneg(n, d) * d - n) <= d,
{
    let q = n / d;
    let r = n % d;
    assert(n == d * q + r && 0 <= r < d) by {
        vstd::arithmetic::div_mod::lemma_fundamental_div_mod(n, d);
    }
    assert(q >= 0) by (nonlinear_arith)
        requires n == d * q + r, 0 <= r < d, n >= 0, d > 0;
    assert(q * d == d * q) by (nonlinear_arith);
    assert((q + 1) * d == d * q + d) by (nonlinear_arith);
    if 2 * r >= d && round_nonneg(n, d) == q + 1 {
        assert(q + 1 <= n) by (nonlinear_arith)
            requires n == d * q + r, 0 <= r < d, 2 * r >= d, d > 0, q >= 0;
    } else {
        assert(q <= n) by (nonlinear_arith)
            requires n == d * q + r, 0 <= r, d > 0, q >= 0;
    }
}

/// Divides and rounds half to even.
pub fn div_round(n: u128, d: u128) -> (r: u128)
    requires
        d > 0,
        n <= u128::MAX / 2,
    ensures
        r == round_nonneg(n as int, d as int),
        r <= n,
{
    proof {
        lemma_round_close(n as int, d as int);
    }
    let q = n / d;
    let rem = n % d;
    let other = d - rem;
    assert(q <= n) by (nonlinear_arith)
        requires q == n / d, d > 0, n >= 0;
    if rem < other {
        q
    } else if rem > other {
        q + 1
    } else if q % 2 == 0 {
        q
    } else {
        q + 1
    }
}

/// Signed division rounded half to even.
pub fn div_round_signed(n: i128, d: i128) -> (r: i128)
    requires
        d > 0,
        -(i128::MAX / 2) <= n <= i128::MAX / 2,
    ensures
        r == round_half_even(n as int, d as int),
{
    if n >= 0 {
        div_round(n as u128, d as u128) as i128
    } else {
        let m = div_round((-n) as u128, d as u128);
        -(m as i128)
    }
}

/// Product of two fixed-point values, rounded to four places.
pub fn mul_scaled(a: i64, b: i64) -> (r: i64)
    requires
        -MAX_AMOUNT <= a <= MAX_AMOUNT,
        -MAX_AMOUNT <= b <= MAX_AMOUNT,
        -MAX_AMOUNT * SCALE <= a * b <= MAX_AMOUNT * SCALE,
    ensures
        r == scaled_mul(a as int, b as int),
        -MAX_AMOUNT <= r <= MAX_AMOUNT,
{
    let p = (a as i128) * (b as i128);
    proof {
        if p >= 0 {
            lemma_round_close(p as int, SCALE as int);
        } else {
            lemma_round_close(-p as int, SCALE as int);
        }
        assert(-(MAX_AMOUNT * SCALE) <= p <= MAX_AMOUNT * SCALE);
    }
    let r = div_round_signed(p, SCALE as i128);
    proof {
        assert(-MAX_AMOUNT <= r <= MAX_AMOUNT) by {
            let m = if p >= 0 { p as int } else { -p as int };
            lemma_round_close(m, SCALE as int);
        }
    }
    r as i64
}

} // verus!
