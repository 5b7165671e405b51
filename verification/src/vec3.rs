//! Three-component vectors of fixed-point scalars.  Contracts speak of a
//! vector through its view `v3`, a triple of mathematical integers, and of
//! the exact componentwise formulas the operations compute.

use vstd::prelude::*;
use crate::fixed::{
    SCALE, abs_i, sdiv, fmul, fdiv, sqrt_floor, is_sqrt, lemma_sqrt_floor, lemma_sqrt_unique,
    lemma_sqrt_mono, lemma_sqrt_square, lemma_sdiv_shrink, lemma_fmul_bound, fp_mul, fp_div,
    sdiv128, isqrt_u128,
};

verus! {

/// Bound on the components accepted by the bounded vector operations.
pub const VMAX: i64 = 0x40_0000_0000;

/// Bound on the components accepted by `length` and `normalize`.
pub const LMAX: i64 = 0x80_0000_0000_0000;

/// A vector of three fixed-point scalars.
#[derive(Clone, Copy, Debug, PartialEq, Eq, Structural)]
pub struct Vec3 {
    pub x: i64,
    pub y: i64,
    pub z: i64,
}

/// The view of a vector: its components as mathematical integers.
pub open spec fn v3(v: Vec3) -> (int, int, int) {
    (v.x as int, v.y as int, v.z as int)
}

/// All three components are bounded by `m` in magnitude.
pub open spec fn t_in(a: (int, int, int), m: int) -> bool {
    abs_i(a.0) <= m && abs_i(a.1) <= m && abs_i(a.2) <= m
}

pub open spec fn t_add(a: (int, int, int), b: (int, int, int)) -> (int, int, int) {
    (a.0 + b.0, a.1 + b.1, a.2 + b.2)
}

pub open spec fn t_sub(a: (int, int, int), b: (int, int, int)) -> (int, int, int) {
    (a.0 - b.0, a.1 - b.1, a.2 - b.2)
}

pub open spec fn t_neg(a: (int, int, int)) -> (int, int, int) {
    (-a.0, -a.1, -a.2)
}

/// Scale by a fixed-point scalar.
pub open spec fn t_scale(a: (int, int, int), s: int) -> (int, int, int) {
    (fmul(a.0, s), fmul(a.1, s), fmul(a.2, s))
}

/// Fixed-point dot product.
pub open spec fn t_dot(a: (int, int, int), b: (int, int, int)) -> int {
    fmul(a.0, b.0) + fmul(a.1, b.1) + fmul(a.2, b.2)
}

/// Cross product of fixed-point vectors.
pub open spec fn t_cross(a: (int, int, int), b: (int, int, int)) -> (int, int, int) {
    (
        fmul(a.1, b.2) - fmul(a.2, b.1),
        fmul(a.2, b.0) - fmul(a.0, b.2),
        fmul(a.0, b.1) - fmul(a.1, b.0),
    )
}

/// Sum of the squared raw components; `SCALE * SCALE` times the squared
/// rational length.
pub open spec fn norm2_raw(a: (int, int, int)) -> int {
    a.0 * a.0 + a.1 * a.1 + a.2 * a.2
}

/// Fixed-point length: the floor square root of the raw squared norm.
pub open spec fn t_len(a: (int, int, int)) -> int {
    sqrt_floor(norm2_raw(a))
}

/// Fixed-point normalization: each component divided by the length.
pub open spec fn t_unit(a: (int, int, int)) -> (int, int, int) {
    (fdiv(a.0, t_len(a)), fdiv(a.1, t_len(a)), fdiv(a.2, t_len(a)))
}

/// The vector lies strictly inside the unit ball.
pub open spec fn in_unit_ball(u: Vec3) -> bool {
    t_in(v3(u), SCALE as int) && norm2_raw(v3(u)) < (SCALE as int) * (SCALE as int)
}

impl Vec3 {
    pub fn new(x: i64, y: i64, z: i64) -> (r: Vec3)
        ensures
            v3(r) == (x as int, y as int, z as int),
    {
        Vec3 { x, y, z }
    }

    pub fn zero() -> (r: Vec3)
        ensures
            v3(r) == (0int, 0int, 0int),
    {
        Vec3 { x: 0, y: 0, z: 0 }
    }

    pub fn v_add(self, o: Vec3) -> (r: Vec3)
        requires
            abs_i(self.x + o.x) <= 0x7fff_ffff_ffff_ffff,
            abs_i(self.y + o.y) <= 0x7fff_ffff_ffff_ffff,
            abs_i(self.z + o.z) <= 0x7fff_ffff_ffff_ffff,
        ensures
            v3(r) == t_add(v3(self), v3(o)),
    {
        Vec3 { x: self.x + o.x, y: self.y + o.y, z: self.z + o.z }
    }

    pub fn v_sub(self, o: Vec3) -> (r: Vec3)
        requires
            abs_i(self.x - o.x) <= 0x7fff_ffff_ffff_ffff,
            abs_i(self.y - o.y) <= 0x7fff_ffff_ffff_ffff,
            abs_i(self.z - o.z) <= 0x7fff_ffff_ffff_ffff,
        ensures
            v3(r) == t_sub(v3(self), v3(o)),
    {
        Vec3 { x: self.x - o.x, y: self.y - o.y, z: self.z - o.z }
    }

    pub fn v_neg(self) -> (r: Vec3)
        requires
            self.x > i64::MIN,
            self.y > i64::MIN,
            self.z > i64::MIN,
        ensures
            v3(r) == t_neg(v3(self)),
    {
        Vec3 { x: -self.x, y: -self.y, z: -self.z }
    }

    /// Scale by a fixed-point scalar.
    pub fn v_scale(self, s: i64) -> (r: Vec3)
        requires
            t_in(v3(self), VMAX as int),
            abs_i(s as int) <= VMAX as int,
        ensures
            v3(r) == t_scale(v3(self), s as int),
            t_in(v3(r), 0x1000_0000_0000_0000),
    {
        proof {
            lemma_fmul_bound(self.x as int, s as int, VMAX as int, VMAX as int);
            lemma_fmul_bound(self.y as int, s as int, VMAX as int, VMAX as int);
            lemma_fmul_bound(self.z as int, s as int, VMAX as int, VMAX as int);
        }
        Vec3 { x: fp_mul(self.x, s), y: fp_mul(self.y, s), z: fp_mul(self.z, s) }
    }

    /// Fixed-point dot product.
    pub fn v_dot(self, o: Vec3) -> (r: i64)
        requires
            t_in(v3(self), VMAX as int),
            t_in(v3(o), VMAX as int),
        ensures
            r == t_dot(v3(self), v3(o)),
            abs_i(r as int) <= 0x3000_0000_0000_0000,
    {
        proof {
            lemma_fmul_bound(self.x as int, o.x as int, VMAX as int, VMAX as int);
            lemma_fmul_bound(self.y as int, o.y as int, VMAX as int, VMAX as int);
            lemma_fmul_bound(self.z as int, o.z as int, VMAX as int, VMAX as int);
        }
        fp_mul(self.x, o.x) + fp_mul(self.y, o.y) + fp_mul(self.z, o.z)
    }

    /// Cross product.
    pub fn v_cross(self, o: Vec3) -> (r: Vec3)
        requires
            t_in(v3(self), VMAX as int),
            t_in(v3(o), VMAX as int),
        ensures
            v3(r) == t_cross(v3(self), v3(o)),
    {
        proof {
            lemma_fmul_bound(self.x as int, o.x as int, VMAX as int, VMAX as int);
            lemma_fmul_bound(self.x as int, o.y as int, VMAX as int, VMAX as int);
            lemma_fmul_bound(self.x as int, o.z as int, VMAX as int, VMAX as int);
            lemma_fmul_bound(self.y as int, o.x as int, VMAX as int, VMAX as int);
            lemma_fmul_bound(self.y as int, o.y as int, VMAX as int, VMAX as int);
            lemma_fmul_bound(self.y as int, o.z as int, VMAX as int, VMAX as int);
            lemma_fmul_bound(self.z as int, o.x as int, VMAX as int, VMAX as int);
            lemma_fmul_bound(self.z as int, o.y as int, VMAX as int, VMAX as int);
            lemma_fmul_bound(self.z as int, o.z as int, VMAX as int, VMAX as int);
        }
        Vec3 {
            x: fp_mul(self.y, o.z) - fp_mul(self.z, o.y),
            y: fp_mul(self.z, o.x) - fp_mul(self.x, o.z),
            z: fp_mul(self.x, o.y) - fp_mul(self.y, o.x),
        }
    }

    /// Squared length, as a fixed-point scalar.
    pub fn length_squared(self) -> (r: i64)
        requires
            t_in(v3(self), VMAX as int),
        ensures
            r == sdiv(norm2_raw(v3(self)), SCALE as int),
            r >= 0,
    {
        proof {
            lemma_fmul_bound(self.x as int, self.x as int, VMAX as int, VMAX as int);
            lemma_fmul_bound(self.y as int, self.y as int, VMAX as int, VMAX as int);
            lemma_fmul_bound(self.z as int, self.z as int, VMAX as int, VMAX as int);
            lemma_sdiv_shrink(norm2_raw(v3(self)), SCALE as int);
            assert(self.x as int * self.x as int >= 0) by (nonlinear_arith);
            assert(self.y as int * self.y as int >= 0) by (nonlinear_arith);
            assert(self.z as int * self.z as int >= 0) by (nonlinear_arith);
        }
        let n: i128 = (self.x as i128) * (self.x as i128) + (self.y as i128) * (self.y as i128)
            + (self.z as i128) * (self.z as i128);
        let q: i128 = sdiv128(n, 65536);
        q as i64
    }

    /// Raw squared norm, exact, on wide integers.
    pub fn norm2_raw_i128(self) -> (r: i128)
        requires
            t_in(v3(self), LMAX as int),
        ensures
            r == norm2_raw(v3(self)),
            r >= 0,
    {
        proof {
            lemma_fmul_bound(self.x as int, self.x as int, LMAX as int, LMAX as int);
            lemma_fmul_bound(self.y as int, self.y as int, LMAX as int, LMAX as int);
            lemma_fmul_bound(self.z as int, self.z as int, LMAX as int, LMAX as int);
            assert(self.x as int * self.x as int >= 0) by (nonlinear_arith);
            assert(self.y as int * self.y as int >= 0) by (nonlinear_arith);
            assert(self.z as int * self.z as int >= 0) by (nonlinear_arith);
        }
        (self.x as i128) * (self.x as i128) + (self.y as i128) * (self.y as i128)
            + (self.z as i128) * (self.z as i128)
    }

    /// Fixed-point length.
    pub fn length(self) -> (r: i64)
        requires
            t_in(v3(self), LMAX as int),
        ensures
            r == t_len(v3(self)),
            r >= 0,
    {
        let n: i128 = self.norm2_raw_i128();
        let s: u64 = isqrt_u128(n as u128);
        proof {
            let rr = sqrt_floor(norm2_raw(v3(self)));
            lemma_sqrt_floor(norm2_raw(v3(self)));
            assert(norm2_raw(v3(self)) <= 3 * (LMAX as int) * (LMAX as int)) by (nonlinear_arith)
                requires
                    t_in(v3(self), LMAX as int),
                    LMAX == 0x80_0000_0000_0000i64,
            ;
            assert(rr < 0x1_0000_0000_0000_0000) by (nonlinear_arith)
                requires
                    is_sqrt(norm2_raw(v3(self)), rr),
                    norm2_raw(v3(self)) <= 3 * (LMAX as int) * (LMAX as int),
                    LMAX == 0x80_0000_0000_0000i64,
            ;
            assert(rr * rr <= norm2_raw(v3(self)));
            assert(rr <= 0x7fff_ffff_ffff_ffff) by (nonlinear_arith)
                requires
                    0 <= rr,
                    rr * rr <= 3 * (LMAX as int) * (LMAX as int),
                    LMAX == 0x80_0000_0000_0000i64,
            ;
        }
        s as i64
    }

    /// Normalize to (fixed-point) unit length.  Undefined on the zero
    /// vector, which callers must rule out.
    pub fn normalize(self) -> (r: Vec3)
        requires
            t_in(v3(self), LMAX as int),
            norm2_raw(v3(self)) >= 1,
        ensures
            v3(r) == t_unit(v3(self)),
            t_in(v3(r), SCALE as int),
    {
        let len: i64 = self.length();
        proof {
            lemma_sqrt_floor(norm2_raw(v3(self)));
            lemma_unit_component(self.x as int, v3(self));
            lemma_unit_component(self.y as int, v3(self));
            lemma_unit_component(self.z as int, v3(self));
        }
        Vec3 {
            x: fp_div(self.x, len),
            y: fp_div(self.y, len),
            z: fp_div(self.z, len),
        }
    }
}

/// A component scaled up and divided by a positive length, against the
/// exact quotient: truncation loses less than one step of the divisor.
proof fn lemma_fdiv_scaled(c: int, l: int)
    requires
        l >= 1,
    ensures
        abs_i(fdiv(c, l)) * l <= abs_i(c) * (SCALE as int),
        abs_i(fdiv(c, l)) * l >= abs_i(c) * (SCALE as int) - l + 1,
{
    assert(abs_i(c * (SCALE as int)) == abs_i(c) * (SCALE as int)) by (nonlinear_arith)
        requires
            SCALE == 65536i64,
    ;
    let x = abs_i(c) * (SCALE as int);
    assert(abs_i(fdiv(c, l)) == x / l);
    assert(l * (x / l) <= x < l * (x / l) + l) by (nonlinear_arith)
        requires
            x >= 0,
            l >= 1,
    ;
    assert((x / l) * l == l * (x / l)) by (nonlinear_arith);
}

/// Normalizing a draw of at least a quarter unit gives a vector whose
/// length is one to within a few steps of the scale.
#[verifier::rlimit(100)]
pub proof fn lemma_unit_band(a: (int, int, int))
    requires
        norm2_raw(a) >= 0x1000_0000,
        t_in(a, LMAX as int),
    ensures
        norm2_raw(t_unit(a)) < 65541 * 65541,
        norm2_raw(t_unit(a)) >= 0x4000_0000,
{
    let n = norm2_raw(a);
    let l = t_len(a);
    lemma_sqrt_floor(n);
    lemma_sqrt_mono(0x1000_0000, n);
    lemma_sqrt_square(16384);
    assert(l >= 16384);
    let u = t_unit(a);
    lemma_fdiv_scaled(a.0, l);
    lemma_fdiv_scaled(a.1, l);
    lemma_fdiv_scaled(a.2, l);
    assert((u.0 * u.0) * (l * l) <= (a.0 * a.0) * (65536 * 65536)) by (nonlinear_arith)
        requires
            abs_i(u.0) * l <= abs_i(a.0) * 65536int,
            l >= 1,
    ;
    assert((u.1 * u.1) * (l * l) <= (a.1 * a.1) * (65536 * 65536)) by (nonlinear_arith)
        requires
            abs_i(u.1) * l <= abs_i(a.1) * 65536int,
            l >= 1,
    ;
    assert((u.2 * u.2) * (l * l) <= (a.2 * a.2) * (65536 * 65536)) by (nonlinear_arith)
        requires
            abs_i(u.2) * l <= abs_i(a.2) * 65536int,
            l >= 1,
    ;
    assert(norm2_raw(u) * (l * l) <= n * (65536 * 65536)) by (nonlinear_arith)
        requires
            (u.0 * u.0) * (l * l) <= (a.0 * a.0) * (65536 * 65536),
            (u.1 * u.1) * (l * l) <= (a.1 * a.1) * (65536 * 65536),
            (u.2 * u.2) * (l * l) <= (a.2 * a.2) * (65536 * 65536),
            norm2_raw(u) == u.0 * u.0 + u.1 * u.1 + u.2 * u.2,
            n == a.0 * a.0 + a.1 * a.1 + a.2 * a.2,
    ;
    assert(norm2_raw(u) < 65541 * 65541) by (nonlinear_arith)
        requires
            norm2_raw(u) * (l * l) <= n * (65536 * 65536),
            n < (l + 1) * (l + 1),
            l >= 16384,
    ;
    if abs_i(a.0) >= abs_i(a.1) && abs_i(a.0) >= abs_i(a.2) {
        assert(3 * (a.0 * a.0) >= n) by (nonlinear_arith)
            requires
                abs_i(a.0) >= abs_i(a.1),
                abs_i(a.0) >= abs_i(a.2),
                n == a.0 * a.0 + a.1 * a.1 + a.2 * a.2,
        ;
        lemma_unit_band_comp(a.0, l, n, u.0);
        assert(norm2_raw(u) >= u.0 * u.0) by (nonlinear_arith)
            requires
                norm2_raw(u) == u.0 * u.0 + u.1 * u.1 + u.2 * u.2,
        ;
    } else if abs_i(a.1) >= abs_i(a.0) && abs_i(a.1) >= abs_i(a.2) {
        assert(3 * (a.1 * a.1) >= n) by (nonlinear_arith)
            requires
                abs_i(a.1) >= abs_i(a.0),
                abs_i(a.1) >= abs_i(a.2),
                n == a.0 * a.0 + a.1 * a.1 + a.2 * a.2,
        ;
        lemma_unit_band_comp(a.1, l, n, u.1);
        assert(norm2_raw(u) >= u.1 * u.1) by (nonlinear_arith)
            requires
                norm2_raw(u) == u.0 * u.0 + u.1 * u.1 + u.2 * u.2,
        ;
    } else {
        assert(3 * (a.2 * a.2) >= n) by (nonlinear_arith)
            requires
                abs_i(a.2) >= abs_i(a.0),
                abs_i(a.2) >= abs_i(a.1),
                n == a.0 * a.0 + a.1 * a.1 + a.2 * a.2,
        ;
        lemma_unit_band_comp(a.2, l, n, u.2);
        assert(norm2_raw(u) >= u.2 * u.2) by (nonlinear_arith)
            requires
                norm2_raw(u) == u.0 * u.0 + u.1 * u.1 + u.2 * u.2,
        ;
    }
}

/// The largest component of the draw alone pins the normalized vector
/// above half a unit.
proof fn lemma_unit_band_comp(c: int, l: int, n: int, q: int)
    requires
        3 * (c * c) >= n,
        n >= l * l,
        l >= 2,
        q == fdiv(c, l),
        abs_i(q) * l >= abs_i(c) * (SCALE as int) - l + 1,
    ensures
        q * q >= 0x4000_0000,
{
    assert(2 * abs_i(c) > l) by (nonlinear_arith)
        requires
            3 * (c * c) >= n,
            n >= l * l,
            l >= 2,
    ;
    assert(abs_i(q) >= 32768) by (nonlinear_arith)
        requires
            abs_i(q) * l >= abs_i(c) * 65536int - l + 1,
            2 * abs_i(c) > l,
            l >= 2,
            abs_i(q) >= 0,
    ;
    assert(q * q >= 0x4000_0000) by (nonlinear_arith)
        requires
            abs_i(q) >= 32768,
    ;
}

/// A vector never points against its own normalization: their dot product
/// is nonnegative.
pub proof fn lemma_unit_dot_nonneg(a: (int, int, int))
    requires
        norm2_raw(a) >= 1,
    ensures
        t_len(a) >= 1,
        t_dot(a, t_unit(a)) >= 0,
{
    let n = norm2_raw(a);
    let l = t_len(a);
    lemma_sqrt_floor(n);
    assert(l >= 1) by (nonlinear_arith)
        requires
            is_sqrt(n, l),
            n >= 1,
    ;
    lemma_unit_term_nonneg(a.0, l);
    lemma_unit_term_nonneg(a.1, l);
    lemma_unit_term_nonneg(a.2, l);
}

/// One term of that dot product: a component times its own quotient by
/// the (positive) length.
proof fn lemma_unit_term_nonneg(c: int, l: int)
    requires
        l >= 1,
    ensures
        fmul(c, fdiv(c, l)) >= 0,
{
    let q = fdiv(c, l);
    lemma_sdiv_shrink(c * (SCALE as int), l);
    if c >= 0 {
        assert(c * (SCALE as int) >= 0) by (nonlinear_arith)
            requires
                c >= 0,
        ;
        assert(q >= 0);
        assert(c * q >= 0) by (nonlinear_arith)
            requires
                c >= 0,
                q >= 0,
        ;
        lemma_sdiv_shrink(c * q, SCALE as int);
    } else {
        assert(c * (SCALE as int) < 0) by (nonlinear_arith)
            requires
                c < 0,
        ;
        assert(q <= 0);
        assert(c * q >= 0) by (nonlinear_arith)
            requires
                c < 0,
                q <= 0,
        ;
        lemma_sdiv_shrink(c * q, SCALE as int);
    }
}

/// A component divided by the vector's length is at most one, in
/// fixed-point terms.
proof fn lemma_unit_component(c: int, a: (int, int, int))
    requires
        norm2_raw(a) >= 1,
        c == a.0 || c == a.1 || c == a.2,
    ensures
        t_len(a) >= 1,
        abs_i(fdiv(c, t_len(a))) <= SCALE as int,
{
    let n = norm2_raw(a);
    let l = t_len(a);
    lemma_sqrt_floor(n);
    assert(a.0 * a.0 >= 0 && a.1 * a.1 >= 0 && a.2 * a.2 >= 0) by (nonlinear_arith);
    assert(c * c <= n);
    lemma_sqrt_square(abs_i(c));
    assert(abs_i(c) * abs_i(c) == c * c) by (nonlinear_arith);
    lemma_sqrt_mono(c * c, n);
    assert(abs_i(c) <= l);
    assert(l >= 1) by (nonlinear_arith)
        requires
            is_sqrt(n, l),
            n >= 1,
    ;
    assert(abs_i(c * (SCALE as int)) == abs_i(c) * (SCALE as int)) by (nonlinear_arith)
        requires
            SCALE == 65536i64,
    ;
    assert((abs_i(c) * (SCALE as int)) / l <= SCALE as int) by (nonlinear_arith)
        requires
            0 <= abs_i(c) <= l,
            l >= 1,
            SCALE == 65536i64,
    ;
}

} // verus!
