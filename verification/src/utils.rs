//! Random sampling helpers.  The only trusted item of the crate is the
//! wrapper around `rand`; everything built on it is verified for every
//! value the wrapper may hand back.

use vstd::prelude::*;
use rand::RngExt;
use crate::fixed::{SCALE, clamp_s};
use crate::vec3::{Vec3, v3, t_in, t_unit, norm2_raw, in_unit_ball, lemma_unit_band};

verus! {

/// Draw a scalar uniformly from `[lo, hi)`.  Relies on rand's
/// `Rng::random_range`, which returns a value of the given range and
/// panics only when the range is empty.
#[verifier::external_body]
fn rand_in(lo: i64, hi: i64) -> (r: i64)
    requires
        lo < hi,
    ensures
        lo <= r < hi,
{
    rand::rng().random_range(lo..hi)
}

/// Uniform fixed-point scalar in `[0, 1)`.
pub fn rand_fp_unit() -> (r: i64)
    ensures
        0 <= r < SCALE,
{
    rand_in(0, SCALE)
}

/// A vector strictly inside the unit ball and no shorter than a quarter
/// unit, so that normalizing it stays accurate.  The draw is repeated a
/// bounded number of times; the deterministic fallback keeps the contract
/// and is practically unreachable (a single round rejects with probability
/// above four tenths).
pub fn random_in_unit_sphere() -> (r: Vec3)
    ensures
        in_unit_ball(r),
        norm2_raw(v3(r)) >= 0x1000_0000,
{
    let mut i: u32 = 0;
    while i < 64
        invariant
            true,
        decreases 64 - i,
    {
        let p = Vec3::new(rand_in(-65535, 65536), rand_in(-65535, 65536), rand_in(-65535, 65536));
        let n: i128 = p.norm2_raw_i128();
        if n >= 268435456 && n < 4294967296 {
            return p;
        }
        i = i + 1;
    }
    Vec3::new(32768, 0, 0)
}

/// A vector of (fixed-point) unit length in a random direction: the
/// normalization of a ball draw, its length within a few steps of one.
pub fn random_unit_vector() -> (r: Vec3)
    ensures
        t_in(v3(r), SCALE as int),
        0x4000_0000 <= norm2_raw(v3(r)) < 65541 * 65541,
        exists|p: Vec3|
            #![trigger v3(p)]
            (in_unit_ball(p) && norm2_raw(v3(p)) >= 1 && v3(r) == t_unit(v3(p))),
{
    let p = random_in_unit_sphere();
    let r = p.normalize();
    proof {
        assert(in_unit_ball(p) && norm2_raw(v3(p)) >= 1 && v3(r) == t_unit(v3(p)));
        lemma_unit_band(v3(p));
    }
    r
}

/// A vector strictly inside the unit disk of the x/y plane and no shorter
/// than a quarter unit.
pub fn random_in_unit_disk() -> (r: Vec3)
    ensures
        in_unit_ball(r),
        norm2_raw(v3(r)) >= 0x1000_0000,
        r.z == 0,
{
    let mut i: u32 = 0;
    while i < 64
        invariant
            true,
        decreases 64 - i,
    {
        let p = Vec3::new(rand_in(-65535, 65536), rand_in(-65535, 65536), 0);
        let n: i128 = p.norm2_raw_i128();
        if n >= 268435456 && n < 4294967296 {
            return p;
        }
        i = i + 1;
    }
    Vec3::new(32768, 0, 0)
}

/// Clamp a scalar to a closed interval.
pub fn clamp(x: i64, lo: i64, hi: i64) -> (r: i64)
    requires
        lo <= hi,
    ensures
        r == clamp_s(x as int, lo as int, hi as int),
        lo <= r <= hi,
{
    if x < lo {
        lo
    } else if x > hi {
        hi
    } else {
        x
    }
}

} // verus!
