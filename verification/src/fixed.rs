//! Fixed-point scalars: an `i64` holds `SCALE` steps per unit, so the
//! rational value of a scalar `a` is `a / SCALE`.  Multiplication and
//! division round toward zero, exactly as the hardware integer division
//! does; the spec functions here say so and every executable operation is
//! proved to match them.

use vstd::prelude::*;

verus! {

/// Number of fixed-point steps per unit.
pub const SCALE: i64 = 65536;

/// Absolute value of a mathematical integer.
pub open spec fn abs_i(a: int) -> int {
    if a < 0 { -a } else { a }
}

/// Integer division rounding toward zero (the rounding of `/` on machine
/// integers), stated over mathematical integers.
pub open spec fn sdiv(a: int, b: int) -> int {
    if (a < 0) == (b < 0) {
        abs_i(a) / abs_i(b)
    } else {
        -(abs_i(a) / abs_i(b))
    }
}

/// Product of two fixed-point scalars.
pub open spec fn fmul(a: int, b: int) -> int {
    sdiv(a * b, SCALE as int)
}

/// Quotient of two fixed-point scalars.
pub open spec fn fdiv(a: int, b: int) -> int {
    sdiv(a * (SCALE as int), b)
}

/// `r` is the floor of the square root of `x`.
pub open spec fn is_sqrt(x: int, r: int) -> bool {
    0 <= r && r * r <= x && x < (r + 1) * (r + 1)
}

/// Floor of the square root of a nonnegative integer.
pub open spec fn sqrt_floor(x: int) -> int {
    if x >= 0 {
        choose|r: int| #[trigger] is_sqrt(x, r)
    } else {
        0
    }
}

proof fn lemma_sqrt_exists(x: nat)
    ensures
        exists|r: int| #[trigger] is_sqrt(x as int, r),
    decreases x,
{
    if x == 0 {
        assert(is_sqrt(0, 0));
    } else {
        lemma_sqrt_exists((x - 1) as nat);
        let r = choose|r: int| #[trigger] is_sqrt(x - 1, r);
        if (r + 1) * (r + 1) <= x {
            assert(is_sqrt(x as int, r + 1)) by (nonlinear_arith)
                requires
                    0 <= r,
                    (r + 1) * (r + 1) <= x,
                    x - 1 < (r + 1) * (r + 1),
            ;
        } else {
            assert(is_sqrt(x as int, r));
        }
    }
}

/// The floor square root exists for every nonnegative integer.
pub proof fn lemma_sqrt_floor(x: int)
    requires
        x >= 0,
    ensures
        is_sqrt(x, sqrt_floor(x)),
{
    lemma_sqrt_exists(x as nat);
}

/// The floor square root is unique.
pub proof fn lemma_sqrt_unique(x: int, r: int)
    requires
        is_sqrt(x, r),
    ensures
        r == sqrt_floor(x),
{
    lemma_sqrt_floor(x);
    let s = sqrt_floor(x);
    assert(r == s) by (nonlinear_arith)
        requires
            is_sqrt(x, r),
            is_sqrt(x, s),
    ;
}

/// The square root is monotone.
pub proof fn lemma_sqrt_mono(x: int, y: int)
    requires
        0 <= x <= y,
    ensures
        sqrt_floor(x) <= sqrt_floor(y),
{
    lemma_sqrt_floor(x);
    lemma_sqrt_floor(y);
    assert(sqrt_floor(x) <= sqrt_floor(y)) by (nonlinear_arith)
        requires
            x <= y,
            is_sqrt(x, sqrt_floor(x)),
            is_sqrt(y, sqrt_floor(y)),
    ;
}

/// The square root of a perfect square.
pub proof fn lemma_sqrt_square(a: int)
    requires
        a >= 0,
    ensures
        sqrt_floor(a * a) == a,
{
    assert(is_sqrt(a * a, a)) by (nonlinear_arith)
        requires
            a >= 0,
    ;
    lemma_sqrt_unique(a * a, a);
}

/// Division by a nonzero integer cannot grow the magnitude.
pub proof fn lemma_sdiv_shrink(a: int, b: int)
    requires
        b != 0,
    ensures
        abs_i(sdiv(a, b)) <= abs_i(a),
        a >= 0 && b > 0 ==> sdiv(a, b) == a / b && sdiv(a, b) >= 0,
{
    assert(abs_i(a) / abs_i(b) <= abs_i(a) && abs_i(a) / abs_i(b) >= 0) by (nonlinear_arith)
        requires
            abs_i(b) >= 1,
            abs_i(a) >= 0,
    ;
}

/// Flipping the sign of the numerator or the denominator flips the quotient.
pub proof fn lemma_sdiv_sign(a: int, b: int)
    requires
        b != 0,
    ensures
        sdiv(-a, b) == -sdiv(a, b),
        sdiv(a, -b) == -sdiv(a, b),
{
    assert(abs_i(-a) == abs_i(a));
    assert(abs_i(-b) == abs_i(b));
    assert(0int / abs_i(b) == 0) by (nonlinear_arith)
        requires
            abs_i(b) >= 1,
    ;
}

/// Rounding toward zero is monotone in the numerator, for a positive
/// denominator.
pub proof fn lemma_sdiv_mono(p: int, q: int, d: int)
    requires
        p <= q,
        d > 0,
    ensures
        sdiv(p, d) <= sdiv(q, d),
{
    if p >= 0 {
        assert(p / d <= q / d) by (nonlinear_arith)
            requires
                0 <= p <= q,
                d > 0,
        ;
    } else if q < 0 {
        assert((-q) / d <= (-p) / d) by (nonlinear_arith)
            requires
                p <= q < 0,
                d > 0,
        ;
    } else {
        assert((-p) / d >= 0 && q / d >= 0) by (nonlinear_arith)
            requires
                p < 0 <= q,
                d > 0,
        ;
    }
}

/// A bound on both factors bounds the fixed-point product.
pub proof fn lemma_fmul_bound(a: int, b: int, m: int, n: int)
    requires
        abs_i(a) <= m,
        abs_i(b) <= n,
    ensures
        abs_i(fmul(a, b)) <= (m * n) / (SCALE as int),
        abs_i(a * b) <= m * n,
{
    assert(abs_i(a * b) <= m * n) by (nonlinear_arith)
        requires
            abs_i(a) <= m,
            abs_i(b) <= n,
    ;
    lemma_sdiv_mono(abs_i(a * b), m * n, SCALE as int);
    lemma_sdiv_shrink(m * n, SCALE as int);
    if a * b < 0 {
        lemma_sdiv_sign(-(a * b), SCALE as int);
        lemma_sdiv_mono(-(a * b), m * n, SCALE as int);
    }
}

/// Multiplying by one (`SCALE`) is exact, and by zero gives zero.
pub proof fn lemma_fmul_unit(x: int)
    ensures
        fmul(SCALE as int, x) == x,
        fmul(x, SCALE as int) == x,
        fmul(0, x) == 0,
        fmul(x, 0) == 0,
{
    assert(abs_i((SCALE as int) * x) == (SCALE as int) * abs_i(x)) by (nonlinear_arith);
    assert(((SCALE as int) * abs_i(x)) / (SCALE as int) == abs_i(x)) by (nonlinear_arith)
        requires
            abs_i(x) >= 0,
    ;
    assert((SCALE as int) * x == x * (SCALE as int)) by (nonlinear_arith);
    assert(0 * x == 0 && x * 0 == 0) by (nonlinear_arith);
}

/// The fixed-point product of a value with itself is nonnegative, and the
/// product of nonnegative values is nonnegative.
pub proof fn lemma_fmul_nonneg(a: int, b: int)
    ensures
        a == b ==> fmul(a, b) >= 0,
        a >= 0 && b >= 0 ==> fmul(a, b) >= 0 && fmul(a, b) <= a * b,
{
    assert(a == b ==> a * b >= 0) by (nonlinear_arith);
    assert(a >= 0 && b >= 0 ==> a * b >= 0) by (nonlinear_arith);
    if a * b >= 0 {
        lemma_sdiv_shrink(a * b, SCALE as int);
    }
}

/// Negating one factor negates the fixed-point product.
pub proof fn lemma_fmul_neg(a: int, b: int)
    ensures
        fmul(a, -b) == -fmul(a, b),
        fmul(-a, b) == -fmul(a, b),
{
    assert(a * (-b) == -(a * b) && (-a) * b == -(a * b)) by (nonlinear_arith);
    lemma_sdiv_sign(a * b, SCALE as int);
}

/// Integer division rounding toward zero, on machine integers; the one
/// place where the crate divides.
pub(crate) fn sdiv128(a: i128, b: i128) -> (q: i128)
    requires
        b != 0,
        a != i128::MIN,
        b != i128::MIN,
    ensures
        q == sdiv(a as int, b as int),
{
    let an: u128 = if a < 0 { (-a) as u128 } else { a as u128 };
    let bn: u128 = if b < 0 { (-b) as u128 } else { b as u128 };
    proof {
        assert(an == abs_i(a as int));
        assert(bn == abs_i(b as int));
        lemma_sdiv_shrink(a as int, b as int);
    }
    let qn: u128 = an / bn;
    assert(qn <= an);
    if (a < 0) != (b < 0) {
        -(qn as i128)
    } else {
        qn as i128
    }
}

/// Floor of the square root of a machine integer.
pub fn isqrt_u128(x: u128) -> (r: u64)
    ensures
        r == sqrt_floor(x as int),
        is_sqrt(x as int, r as int),
{
    let mut lo: u128 = 0;
    let mut hi: u128 = 0xffff_ffff_ffff_ffff;
    proof {
        assert((hi + 1) * (hi + 1) > x as int) by (nonlinear_arith)
            requires
                hi == 0xffff_ffff_ffff_ffffu128,
                x <= u128::MAX,
        ;
    }
    while lo < hi
        invariant
            lo <= hi <= 0xffff_ffff_ffff_ffff,
            lo * lo <= x,
            (x as int) < (hi + 1) * (hi + 1),
        decreases hi - lo,
    {
        let mid: u128 = lo + (hi - lo + 1) / 2;
        assert(lo < mid <= hi);
        proof {
            assert(mid * mid <= u128::MAX) by (nonlinear_arith)
                requires
                    mid <= 0xffff_ffff_ffff_ffffu128,
            ;
        }
        if mid * mid <= x {
            lo = mid;
        } else {
            hi = mid - 1;
        }
    }
    proof {
        lemma_sqrt_unique(x as int, lo as int);
    }
    lo as u64
}

/// Fixed-point product on machine integers.
pub fn fp_mul(a: i64, b: i64) -> (r: i64)
    requires
        -0x7fff_ffff_ffff_ffff <= fmul(a as int, b as int) <= 0x7fff_ffff_ffff_ffff,
    ensures
        r == fmul(a as int, b as int),
{
    proof {
        assert(-0x4000_0000_0000_0000_0000_0000_0000_0000
            <= (a as int) * (b as int)
            <= 0x4000_0000_0000_0000_0000_0000_0000_0000) by (nonlinear_arith)
            requires
                -0x8000_0000_0000_0000 <= a as int <= 0x7fff_ffff_ffff_ffff,
                -0x8000_0000_0000_0000 <= b as int <= 0x7fff_ffff_ffff_ffff,
        ;
    }
    let p: i128 = (a as i128) * (b as i128);
    let q: i128 = sdiv128(p, 65536);
    q as i64
}

/// Fixed-point quotient on machine integers.
pub fn fp_div(a: i64, b: i64) -> (r: i64)
    requires
        b != 0,
        -0x7fff_ffff_ffff_ffff <= fdiv(a as int, b as int) <= 0x7fff_ffff_ffff_ffff,
    ensures
        r == fdiv(a as int, b as int),
{
    let p: i128 = (a as i128) * 65536;
    let q: i128 = sdiv128(p, b as i128);
    q as i64
}

/// Square root of a nonnegative fixed-point scalar, as a spec.
pub open spec fn sqrt_fp_s(x: int) -> int {
    sqrt_floor(x * (SCALE as int))
}

/// Square root of a nonnegative fixed-point scalar.
pub fn sqrt_fp(x: i64) -> (r: i64)
    requires
        x >= 0,
    ensures
        r == sqrt_fp_s(x as int),
        r >= 0,
{
    let n: u128 = (x as u128) * 65536;
    let s: u64 = isqrt_u128(n);
    proof {
        lemma_sqrt_floor(n as int);
        let rr = sqrt_floor(n as int);
        assert(rr <= 0x7fff_ffff_ffff_ffff) by (nonlinear_arith)
            requires
                is_sqrt(n as int, rr),
                n <= 0x8000_0000_0000_0000_0000u128,
        ;
    }
    s as i64
}

/// Clamp a scalar to a closed interval, as a spec.
pub open spec fn clamp_s(x: int, lo: int, hi: int) -> int {
    if x < lo {
        lo
    } else if x > hi {
        hi
    } else {
        x
    }
}

} // verus!
