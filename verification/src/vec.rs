//! Three-component fixed-point vectors and their algebra: arithmetic, dot
//! and cross products, length, normalization, reflection, refraction, and
//! uniform random sampling in a range, the unit ball and the unit disk.

use vstd::prelude::*;
use crate::fixed::{SCALE, fmul_s, fdiv_s, tdiv, sqrt_fx_s, isqrt_s, fmul, fdiv, sqrt_fx};
use crate::fixed::{lemma_isqrt, lemma_isqrt_le, lemma_fmul_range, lemma_tdiv_range,
    lemma_tdiv_exact};
use crate::rng::random_unit;

verus! {

/// Components below this magnitude in every axis make a vector "near zero":
/// too short to normalize or to trace further.
pub const NEAR_ZERO_EPS: i64 = 256;

/// Magnitude cap on the fixed-point products inside a dot or cross product,
/// chosen so that three of them sum without overflow.
pub const PROD_LIM: i64 = 0x2000_0000_0000_0000;

/// Mathematical model of a vector: unbounded integers in fixed-point scale.
pub ghost struct V3 {
    pub x: int,
    pub y: int,
    pub z: int,
}

#[derive(Clone, Copy, PartialEq, Eq, Structural, Debug)]
pub struct Vec3 {
    pub x: i64,
    pub y: i64,
    pub z: i64,
}

impl View for Vec3 {
    type V = V3;

    open spec fn view(&self) -> V3 {
        V3 { x: self.x as int, y: self.y as int, z: self.z as int }
    }
}

pub open spec fn ok64(x: int) -> bool {
    -0x7fff_ffff_ffff_ffff <= x <= 0x7fff_ffff_ffff_ffff
}

pub open spec fn in_range3(v: V3, m: int) -> bool {
    &&& -m <= v.x <= m
    &&& -m <= v.y <= m
    &&& -m <= v.z <= m
}

pub open spec fn vadd_s(a: V3, b: V3) -> V3 {
    V3 { x: a.x + b.x, y: a.y + b.y, z: a.z + b.z }
}

pub open spec fn vsub_s(a: V3, b: V3) -> V3 {
    V3 { x: a.x - b.x, y: a.y - b.y, z: a.z - b.z }
}

pub open spec fn vneg_s(a: V3) -> V3 {
    V3 { x: -a.x, y: -a.y, z: -a.z }
}

pub open spec fn scale_s(k: int, v: V3) -> V3 {
    V3 { x: fmul_s(k, v.x), y: fmul_s(k, v.y), z: fmul_s(k, v.z) }
}

pub open spec fn divk_s(v: V3, k: int) -> V3 {
    V3 { x: fdiv_s(v.x, k), y: fdiv_s(v.y, k), z: fdiv_s(v.z, k) }
}

pub open spec fn dot_s(a: V3, b: V3) -> int {
    fmul_s(a.x, b.x) + fmul_s(a.y, b.y) + fmul_s(a.z, b.z)
}

pub open spec fn dot_fits(a: V3, b: V3) -> bool {
    &&& -PROD_LIM <= fmul_s(a.x, b.x) <= PROD_LIM as int
    &&& -PROD_LIM <= fmul_s(a.y, b.y) <= PROD_LIM as int
    &&& -PROD_LIM <= fmul_s(a.z, b.z) <= PROD_LIM as int
}

pub open spec fn cross_s(a: V3, b: V3) -> V3 {
    V3 {
        x: fmul_s(a.y, b.z) - fmul_s(a.z, b.y),
        y: fmul_s(a.z, b.x) - fmul_s(a.x, b.z),
        z: fmul_s(a.x, b.y) - fmul_s(a.y, b.x),
    }
}

pub open spec fn cross_fits(a: V3, b: V3) -> bool {
    &&& -PROD_LIM <= fmul_s(a.y, b.z) <= PROD_LIM as int
    &&& -PROD_LIM <= fmul_s(a.z, b.y) <= PROD_LIM as int
    &&& -PROD_LIM <= fmul_s(a.z, b.x) <= PROD_LIM as int
    &&& -PROD_LIM <= fmul_s(a.x, b.z) <= PROD_LIM as int
    &&& -PROD_LIM <= fmul_s(a.x, b.y) <= PROD_LIM as int
    &&& -PROD_LIM <= fmul_s(a.y, b.x) <= PROD_LIM as int
}

pub open spec fn len_s(v: V3) -> int {
    sqrt_fx_s(dot_s(v, v))
}

pub open spec fn norm_s(v: V3) -> V3 {
    divk_s(v, len_s(v))
}

pub open spec fn near_zero_s(v: V3) -> bool {
    &&& -(NEAR_ZERO_EPS as int) < v.x < NEAR_ZERO_EPS as int
    &&& -(NEAR_ZERO_EPS as int) < v.y < NEAR_ZERO_EPS as int
    &&& -(NEAR_ZERO_EPS as int) < v.z < NEAR_ZERO_EPS as int
}

/// Mirror reflection of `v` about the normal `n`: `v - 2 (v . n) n`.
pub open spec fn reflect_s(v: V3, n: V3) -> V3 {
    vsub_s(v, scale_s(2 * dot_s(v, n), n))
}

/// Spec mirror of `refract`, step for step: the clamped cosine, the
/// perpendicular part, then the parallel part from the square root.
pub open spec fn refract_cos_s(uv: V3, n: V3) -> int {
    let c: int = dot_s(vneg_s(uv), n);
    if c < SCALE as int {
        c
    } else {
        SCALE as int
    }
}

pub open spec fn refract_perp_s(uv: V3, n: V3, ratio: int) -> V3 {
    scale_s(ratio, vadd_s(uv, scale_s(refract_cos_s(uv, n), n)))
}

pub open spec fn refract_s(uv: V3, n: V3, ratio: int) -> V3 {
    let perp = refract_perp_s(uv, n, ratio);
    let l: int = len_s(perp);
    let k: int = SCALE as int - fmul_s(l, l);
    let ka: int = if k < 0 {
        -k
    } else {
        k
    };
    vadd_s(perp, scale_s(-sqrt_fx_s(ka), n))
}

impl Vec3 {
    pub fn new(x: i64, y: i64, z: i64) -> (r: Vec3)
        ensures
            r@ == (V3 { x: x as int, y: y as int, z: z as int }),
    {
        Vec3 { x, y, z }
    }

    pub fn add(self, other: Vec3) -> (r: Vec3)
        requires
            ok64(self@.x + other@.x),
            ok64(self@.y + other@.y),
            ok64(self@.z + other@.z),
        ensures
            r@ == vadd_s(self@, other@),
    {
        Vec3 { x: self.x + other.x, y: self.y + other.y, z: self.z + other.z }
    }

    pub fn sub(self, other: Vec3) -> (r: Vec3)
        requires
            ok64(self@.x - other@.x),
            ok64(self@.y - other@.y),
            ok64(self@.z - other@.z),
        ensures
            r@ == vsub_s(self@, other@),
    {
        Vec3 { x: self.x - other.x, y: self.y - other.y, z: self.z - other.z }
    }

    pub fn neg(self) -> (r: Vec3)
        requires
            ok64(-self@.x),
            ok64(-self@.y),
            ok64(-self@.z),
        ensures
            r@ == vneg_s(self@),
    {
        Vec3 { x: -self.x, y: -self.y, z: -self.z }
    }

    /// Scalar multiply: each component scaled by the fixed-point factor `k`.
    pub fn mul(self, k: i64) -> (r: Vec3)
        requires
            ok64(fmul_s(k as int, self@.x)),
            ok64(fmul_s(k as int, self@.y)),
            ok64(fmul_s(k as int, self@.z)),
        ensures
            r@ == scale_s(k as int, self@),
    {
        Vec3 { x: fmul(k, self.x), y: fmul(k, self.y), z: fmul(k, self.z) }
    }

    /// Scalar divide by a positive fixed-point factor.
    pub fn div(self, k: i64) -> (r: Vec3)
        requires
            k > 0,
            in_range3(self@, 0x7fff_ffff_ffff),
            ok64(fdiv_s(self@.x, k as int)),
            ok64(fdiv_s(self@.y, k as int)),
            ok64(fdiv_s(self@.z, k as int)),
        ensures
            r@ == divk_s(self@, k as int),
    {
        Vec3 { x: fdiv(self.x, k), y: fdiv(self.y, k), z: fdiv(self.z, k) }
    }

    pub fn dot(self, other: Vec3) -> (r: i64)
        requires
            dot_fits(self@, other@),
        ensures
            r as int == dot_s(self@, other@),
    {
        fmul(self.x, other.x) + fmul(self.y, other.y) + fmul(self.z, other.z)
    }

    pub fn cross(self, other: Vec3) -> (r: Vec3)
        requires
            cross_fits(self@, other@),
        ensures
            r@ == cross_s(self@, other@),
    {
        Vec3 {
            x: fmul(self.y, other.z) - fmul(self.z, other.y),
            y: fmul(self.z, other.x) - fmul(self.x, other.z),
            z: fmul(self.x, other.y) - fmul(self.y, other.x),
        }
    }

    pub fn len(self) -> (r: i64)
        requires
            dot_fits(self@, self@),
        ensures
            r as int == len_s(self@),
            r >= 0,
    {
        proof {
            lemma_dot_self_nonneg(self@);
        }
        sqrt_fx(self.dot(self))
    }

    /// Normalize: divide each component by the vector's length. The caller
    /// guarantees a squared length of at least one quantum; the result's
    /// components never exceed twice the unit scale.
    pub fn norm(self) -> (r: Vec3)
        requires
            dot_fits(self@, self@),
            1 <= dot_s(self@, self@),
            in_range3(self@, 0x7fff_ffff_ffff),
        ensures
            r@ == norm_s(self@),
            in_range3(r@, 2 * SCALE as int),
            1 <= len_s(self@),
    {
        proof {
            lemma_norm_bound(self@);
        }
        let l: i64 = self.len();
        Vec3 { x: fdiv(self.x, l), y: fdiv(self.y, l), z: fdiv(self.z, l) }
    }

    /// Whether every component is below the degeneracy threshold in
    /// magnitude, in each of the three axes.
    pub fn near_zero(self) -> (r: bool)
        ensures
            r == near_zero_s(self@),
    {
        let e: i64 = NEAR_ZERO_EPS;
        -e < self.x && self.x < e && -e < self.y && self.y < e && -e < self.z && self.z < e
    }

    pub fn reflect(self, norm: Vec3) -> (r: Vec3)
        requires
            in_range3(self@, 0x4_0000_0000),
            in_range3(norm@, 2 * SCALE as int),
        ensures
            r@ == reflect_s(self@, norm@),
            in_range3(r@, 0x64_0000_0000),
    {
        proof {
            lemma_dot_fits_from_range(self@, norm@, 0x4_0000_0000, 2 * SCALE as int);
            lemma_tdiv_exact(0x8_0000_0000, SCALE as int);
            assert(0x4_0000_0000 * (2 * SCALE as int) == 0x8_0000_0000 * (SCALE as int))
                by (nonlinear_arith)
                requires
                    SCALE == 65536,
            ;
            let d: int = dot_s(self@, norm@);
            lemma_fmul_range(2 * d, norm@.x, 0x30_0000_0000, 2 * SCALE as int);
            lemma_fmul_range(2 * d, norm@.y, 0x30_0000_0000, 2 * SCALE as int);
            lemma_fmul_range(2 * d, norm@.z, 0x30_0000_0000, 2 * SCALE as int);
            lemma_tdiv_exact(0x60_0000_0000, SCALE as int);
            assert(0x30_0000_0000 * (2 * SCALE as int) == 0x60_0000_0000 * (SCALE as int))
                by (nonlinear_arith)
                requires
                    SCALE == 65536,
            ;
        }
        let d: i64 = self.dot(norm);
        self.sub(norm.mul(2 * d))
    }

    /// A vector with each component drawn uniformly from `[min, max)`.
    pub fn get_random(min: i64, max: i64) -> (r: Vec3)
        requires
            min < max,
            -0x2000_0000_0000 <= min,
            max <= 0x2000_0000_0000,
        ensures
            min as int <= r@.x < max as int,
            min as int <= r@.y < max as int,
            min as int <= r@.z < max as int,
    {
        let d: i64 = max - min;
        let x: i64 = min + rand_scaled(d);
        let y: i64 = min + rand_scaled(d);
        let z: i64 = min + rand_scaled(d);
        Vec3 { x, y, z }
    }

    /// Rejection-sampled point strictly inside the unit ball. The attempt
    /// count is capped defensively far beyond any plausible run (acceptance
    /// is about one in two per draw); on exhaustion the center is returned.
    pub fn get_random_in_unit_sphere() -> (r: Vec3)
        ensures
            in_range3(r@, SCALE as int),
            dot_s(r@, r@) < SCALE as int,
    {
        let mut tries: u32 = 0;
        while tries < 1000000
            invariant
                tries <= 1000000,
            decreases 1000000 - tries,
        {
            let p = Vec3::get_random(-SCALE, SCALE);
            proof {
                lemma_dot_fits_from_range(p@, p@, SCALE as int, SCALE as int);
            }
            let d: i64 = p.dot(p);
            if d < SCALE {
                return p;
            }
            tries = tries + 1;
        }
        proof {
            crate::fixed::lemma_fmul_zero(0);
        }
        Vec3 { x: 0, y: 0, z: 0 }
    }

    /// Rejection-sampled point strictly inside the unit disk in the plane
    /// `z == 0`, with the same defensive cap.
    pub fn get_random_in_unit_disk() -> (r: Vec3)
        ensures
            in_range3(r@, SCALE as int),
            dot_s(r@, r@) < SCALE as int,
            r@.z == 0,
    {
        let mut tries: u32 = 0;
        while tries < 1000000
            invariant
                tries <= 1000000,
            decreases 1000000 - tries,
        {
            let q = Vec3::get_random(-SCALE, SCALE);
            let p = Vec3 { x: q.x, y: q.y, z: 0 };
            proof {
                lemma_dot_fits_from_range(p@, p@, SCALE as int, SCALE as int);
            }
            let d: i64 = p.dot(p);
            if d < SCALE {
                return p;
            }
            tries = tries + 1;
        }
        proof {
            crate::fixed::lemma_fmul_zero(0);
        }
        Vec3 { x: 0, y: 0, z: 0 }
    }

    /// Snell refraction of the unit direction `self` at a surface with unit
    /// normal `norm`, with the given ratio of refractive indices.
    pub fn refract(self, norm: Vec3, refr_ratio: i64) -> (r: Vec3)
        requires
            in_range3(self@, 2 * SCALE as int),
            in_range3(norm@, 2 * SCALE as int),
            0 < refr_ratio <= 16 * SCALE as int,
        ensures
            r@ == refract_s(self@, norm@, refr_ratio as int),
            in_range3(r@, 1858 * SCALE as int),
    {
        let m = self.neg();
        proof {
            lemma_dot_fits_from_range(m@, norm@, 2 * SCALE as int, 2 * SCALE as int);
            lemma_tdiv_exact(4 * SCALE as int, SCALE as int);
            assert(2 * SCALE as int * (2 * SCALE as int) == (4 * SCALE as int) * (SCALE as int))
                by (nonlinear_arith)
                requires
                    SCALE == 65536,
            ;
        }
        let cos_raw: i64 = m.dot(norm);
        let cos_theta: i64 = if cos_raw < SCALE {
            cos_raw
        } else {
            SCALE
        };
        proof {
            lemma_scale_range(cos_theta as int, norm@, 12 * SCALE as int, 2 * SCALE as int);
            lemma_tdiv_exact(24 * SCALE as int, SCALE as int);
            assert(12 * SCALE as int * (2 * SCALE as int) == (24 * SCALE as int) * (
            SCALE as int)) by (nonlinear_arith)
                requires
                    SCALE == 65536,
            ;
        }
        let cn = norm.mul(cos_theta);
        let t = self.add(cn);
        proof {
            lemma_scale_range(refr_ratio as int, t@, 16 * SCALE as int, 26 * SCALE as int);
            lemma_tdiv_exact(416 * SCALE as int, SCALE as int);
            assert(16 * SCALE as int * (26 * SCALE as int) == (416 * SCALE as int) * (
            SCALE as int)) by (nonlinear_arith)
                requires
                    SCALE == 65536,
            ;
        }
        let perp = t.mul(refr_ratio);
        proof {
            lemma_dot_fits_from_range(perp@, perp@, 416 * SCALE as int, 416 * SCALE as int);
            lemma_tdiv_exact(173056 * SCALE as int, SCALE as int);
            assert(416 * SCALE as int * (416 * SCALE as int) == (173056 * SCALE as int) * (
            SCALE as int)) by (nonlinear_arith)
                requires
                    SCALE == 65536,
            ;
            lemma_dot_self_nonneg(perp@);
            assert(dot_s(perp@, perp@) * SCALE <= (721 * SCALE as int) * (721 * SCALE as int))
                by (nonlinear_arith)
                requires
                    dot_s(perp@, perp@) <= 519168 * SCALE as int,
                    SCALE == 65536,
            ;
            lemma_isqrt_le((dot_s(perp@, perp@) * SCALE) as nat, (721 * SCALE as int) as nat);
        }
        let l: i64 = perp.len();
        proof {
            lemma_fmul_range(l as int, l as int, 721 * SCALE as int, 721 * SCALE as int);
            lemma_tdiv_exact(519841 * SCALE as int, SCALE as int);
            assert(721 * SCALE as int * (721 * SCALE as int) == (519841 * SCALE as int) * (
            SCALE as int)) by (nonlinear_arith)
                requires
                    SCALE == 65536,
            ;
        }
        let ll: i64 = fmul(l, l);
        let k: i64 = SCALE - ll;
        let ka: i64 = if k < 0 {
            -k
        } else {
            k
        };
        proof {
            assert((ka as int) * SCALE <= (721 * SCALE as int) * (721 * SCALE as int))
                by (nonlinear_arith)
                requires
                    0 <= ka as int <= 519841 * SCALE as int,
                    SCALE == 65536,
            ;
            lemma_isqrt_le(((ka as int) * SCALE) as nat, (721 * SCALE as int) as nat);
        }
        let s: i64 = sqrt_fx(ka);
        proof {
            lemma_scale_range(-(s as int), norm@, 721 * SCALE as int, 2 * SCALE as int);
            lemma_tdiv_exact(1442 * SCALE as int, SCALE as int);
            assert(721 * SCALE as int * (2 * SCALE as int) == (1442 * SCALE as int) * (
            SCALE as int)) by (nonlinear_arith)
                requires
                    SCALE == 65536,
            ;
        }
        let paral = norm.mul(-s);
        perp.add(paral)
    }
}

/// A fixed-point square is never negative.
pub proof fn lemma_fmul_self_nonneg(a: int)
    ensures
        fmul_s(a, a) >= 0,
{
    assert(a * a >= 0) by (nonlinear_arith);
    vstd::arithmetic::div_mod::lemma_div_pos_is_pos(a * a, SCALE as int);
}

/// A dot product of a vector with itself is non-negative, and no term of it
/// exceeds the whole.
pub proof fn lemma_dot_self_nonneg(v: V3)
    ensures
        dot_s(v, v) >= 0,
        fmul_s(v.x, v.x) <= dot_s(v, v),
        fmul_s(v.y, v.y) <= dot_s(v, v),
        fmul_s(v.z, v.z) <= dot_s(v, v),
{
    lemma_fmul_self_nonneg(v.x);
    lemma_fmul_self_nonneg(v.y);
    lemma_fmul_self_nonneg(v.z);
}

/// Componentwise bounds on two vectors keep every term of their dot product
/// in range, and bound the dot product itself.
pub proof fn lemma_dot_fits_from_range(a: V3, b: V3, ca: int, cb: int)
    requires
        in_range3(a, ca),
        in_range3(b, cb),
        0 <= ca <= 0x50_0000_0000,
        0 <= cb <= 0x50_0000_0000,
    ensures
        dot_fits(a, b),
        -3 * tdiv(ca * cb, SCALE as int) <= dot_s(a, b) <= 3 * tdiv(ca * cb, SCALE as int),
{
    assert(0 <= ca * cb <= (0x2000_0000_0000_0000 * 0x10000) as int) by (nonlinear_arith)
        requires
            0 <= ca <= 0x50_0000_0000,
            0 <= cb <= 0x50_0000_0000,
    ;
    lemma_fmul_range(a.x, b.x, ca, cb);
    lemma_fmul_range(a.y, b.y, ca, cb);
    lemma_fmul_range(a.z, b.z, ca, cb);
    lemma_tdiv_range(ca * cb, (0x2000_0000_0000_0000 * 0x10000) as int, SCALE as int);
    lemma_tdiv_exact(0x2000_0000_0000_0000, SCALE as int);
}

/// Componentwise bounds on a scalar and a vector bound their product.
pub proof fn lemma_scale_range(k: int, v: V3, ck: int, cv: int)
    requires
        -ck <= k <= ck,
        in_range3(v, cv),
        0 <= ck,
        0 <= cv,
    ensures
        in_range3(scale_s(k, v), tdiv(ck * cv, SCALE as int)),
{
    lemma_fmul_range(k, v.x, ck, cv);
    lemma_fmul_range(k, v.y, ck, cv);
    lemma_fmul_range(k, v.z, ck, cv);
}

/// Same as `lemma_dot_fits_from_range` for the six terms of a cross product.
pub proof fn lemma_cross_fits_from_range(a: V3, b: V3, ca: int, cb: int)
    requires
        in_range3(a, ca),
        in_range3(b, cb),
        0 <= ca <= 0x50_0000_0000,
        0 <= cb <= 0x50_0000_0000,
    ensures
        cross_fits(a, b),
        in_range3(cross_s(a, b), 2 * tdiv(ca * cb, SCALE as int)),
{
    assert(0 <= ca * cb <= (0x2000_0000_0000_0000 * 0x10000) as int) by (nonlinear_arith)
        requires
            0 <= ca <= 0x50_0000_0000,
            0 <= cb <= 0x50_0000_0000,
    ;
    lemma_fmul_range(a.y, b.z, ca, cb);
    lemma_fmul_range(a.z, b.y, ca, cb);
    lemma_fmul_range(a.z, b.x, ca, cb);
    lemma_fmul_range(a.x, b.z, ca, cb);
    lemma_fmul_range(a.x, b.y, ca, cb);
    lemma_fmul_range(a.y, b.x, ca, cb);
    lemma_tdiv_range(ca * cb, (0x2000_0000_0000_0000 * 0x10000) as int, SCALE as int);
    lemma_tdiv_exact(0x2000_0000_0000_0000, SCALE as int);
}

/// A vector whose squared length is at least one quantum has length at
/// least 256 quanta, and dividing its components by that length lands
/// within twice the unit scale.
pub proof fn lemma_norm_bound(v: V3)
    requires
        dot_fits(v, v),
        1 <= dot_s(v, v),
        in_range3(v, 0x7fff_ffff_ffff),
    ensures
        256 <= len_s(v),
        in_range3(norm_s(v), 2 * SCALE as int),
{
    lemma_dot_self_nonneg(v);
    let d: int = dot_s(v, v);
    let n: nat = (d * SCALE) as nat;
    let l: int = isqrt_s(n) as int;
    lemma_isqrt(n);
    assert(d * SCALE >= 65536) by (nonlinear_arith)
        requires
            d >= 1,
            SCALE == 65536,
    ;
    assert(l >= 256) by (nonlinear_arith)
        requires
            n >= 65536,
            l >= 0,
            n < (l + 1) * (l + 1),
    ;
    lemma_norm_comp_bound(v.x, d, l);
    lemma_norm_comp_bound(v.y, d, l);
    lemma_norm_comp_bound(v.z, d, l);
}

/// One component of a normalization: if the component's fixed-point square
/// is at most `d` and `l` is the floor square root of `d * SCALE`, then
/// `c * SCALE / l` stays within twice the unit scale.
proof fn lemma_norm_comp_bound(c: int, d: int, l: int)
    requires
        fmul_s(c, c) <= d,
        1 <= d,
        256 <= l,
        l * l <= d * SCALE,
        d * SCALE < (l + 1) * (l + 1),
    ensures
        -2 * SCALE as int <= fdiv_s(c, l) <= 2 * SCALE as int,
{
    assert(c * c >= 0) by (nonlinear_arith);
    assert(c * c < (d + 1) * (SCALE as int)) by {
        vstd::arithmetic::div_mod::lemma_fundamental_div_mod(c * c, SCALE as int);
        vstd::arithmetic::div_mod::lemma_mod_bound(c * c, SCALE as int);
        assert((SCALE as int) * (c * c / (SCALE as int)) <= (SCALE as int) * d)
            by (nonlinear_arith)
            requires
                c * c / (SCALE as int) <= d,
        ;
        assert((SCALE as int) * d + (SCALE as int) == (d + 1) * (SCALE as int))
            by (nonlinear_arith);
    };
    assert(-2 * l <= c <= 2 * l) by (nonlinear_arith)
        requires
            c * c < (d + 1) * (SCALE as int),
            d * SCALE < (l + 1) * (l + 1),
            256 <= l,
            1 <= d,
            SCALE == 65536,
    ;
    assert(-(2 * l * SCALE) <= c * SCALE <= 2 * l * SCALE) by (nonlinear_arith)
        requires
            -2 * l <= c <= 2 * l,
            0 <= l,
            SCALE == 65536,
    ;
    lemma_tdiv_range(c * SCALE, 2 * l * SCALE, l);
    assert(2 * l * SCALE == (2 * SCALE as int) * l) by (nonlinear_arith);
    lemma_tdiv_exact(2 * SCALE as int, l);
}

/// A uniform fraction of a positive span lands strictly inside it.
proof fn lemma_fmul_frac_lt(xi: int, d: int)
    requires
        0 <= xi < SCALE as int,
        1 <= d,
    ensures
        0 <= fmul_s(xi, d) < d,
{
    assert(0 <= xi * d) by (nonlinear_arith)
        requires
            0 <= xi,
            0 <= d,
    ;
    vstd::arithmetic::div_mod::lemma_div_pos_is_pos(xi * d, SCALE as int);
    assert(xi * d <= (SCALE as int - 1) * d) by (nonlinear_arith)
        requires
            xi <= SCALE as int - 1,
            1 <= d,
    ;
    vstd::arithmetic::div_mod::lemma_div_is_ordered(xi * d, (SCALE as int - 1) * d, SCALE as int);
    assert(((SCALE as int - 1) * d) / (SCALE as int) < d) by (nonlinear_arith)
        requires
            1 <= d,
            SCALE == 65536,
    ;
}

/// A uniform draw scaled to a span `d`: a value in `[0, d)`.
fn rand_scaled(d: i64) -> (r: i64)
    requires
        1 <= d <= 0x4000_0000_0000,
    ensures
        0 <= r < d,
{
    let xi: i64 = random_unit();
    proof {
        lemma_fmul_frac_lt(xi as int, d as int);
    }
    fmul(xi, d)
}


/// An exactly representable unit normal: one axis at full scale.
pub open spec fn axis_unit_s(n: V3) -> bool {
    ||| n == (V3 { x: SCALE as int, y: 0, z: 0 })
    ||| n == (V3 { x: -(SCALE as int), y: 0, z: 0 })
    ||| n == (V3 { x: 0, y: SCALE as int, z: 0 })
    ||| n == (V3 { x: 0, y: -(SCALE as int), z: 0 })
    ||| n == (V3 { x: 0, y: 0, z: SCALE as int })
    ||| n == (V3 { x: 0, y: 0, z: -(SCALE as int) })
}

/// Against an axis-aligned unit normal the reflection formula is exact in
/// fixed point: it flips the normal component and keeps the others.
proof fn lemma_reflect_axis_form(v: V3, n: V3)
    requires
        axis_unit_s(n),
    ensures
        n.x != 0 ==> reflect_s(v, n) == (V3 { x: -v.x, y: v.y, z: v.z }),
        n.y != 0 ==> reflect_s(v, n) == (V3 { x: v.x, y: -v.y, z: v.z }),
        n.z != 0 ==> reflect_s(v, n) == (V3 { x: v.x, y: v.y, z: -v.z }),
{
    crate::fixed::lemma_fmul_one(v.x);
    crate::fixed::lemma_fmul_one(v.y);
    crate::fixed::lemma_fmul_one(v.z);
    crate::fixed::lemma_fmul_neg_one(v.x);
    crate::fixed::lemma_fmul_neg_one(v.y);
    crate::fixed::lemma_fmul_neg_one(v.z);
    let d: int = dot_s(v, n);
    crate::fixed::lemma_fmul_zero(2 * d);
    crate::fixed::lemma_fmul_one(2 * d);
    crate::fixed::lemma_fmul_neg_one(2 * d);
    crate::fixed::lemma_fmul_zero(v.x);
    crate::fixed::lemma_fmul_zero(v.y);
    crate::fixed::lemma_fmul_zero(v.z);
}

/// Reflection about a held-fixed axis-aligned unit normal is an exact
/// involution that preserves the squared length, and the reflected vector's
/// normal component is exactly negated.
pub proof fn lemma_reflect_involution_axis(v: V3, n: V3)
    requires
        axis_unit_s(n),
    ensures
        reflect_s(reflect_s(v, n), n) == v,
        dot_s(reflect_s(v, n), n) == -dot_s(v, n),
        dot_s(reflect_s(v, n), reflect_s(v, n)) == dot_s(v, v),
{
    lemma_reflect_axis_form(v, n);
    lemma_reflect_axis_form(reflect_s(v, n), n);
    crate::fixed::lemma_fmul_one(v.x);
    crate::fixed::lemma_fmul_one(v.y);
    crate::fixed::lemma_fmul_one(v.z);
    crate::fixed::lemma_fmul_neg_one(v.x);
    crate::fixed::lemma_fmul_neg_one(v.y);
    crate::fixed::lemma_fmul_neg_one(v.z);
    crate::fixed::lemma_fmul_zero(v.x);
    crate::fixed::lemma_fmul_zero(v.y);
    crate::fixed::lemma_fmul_zero(v.z);
    crate::fixed::lemma_fmul_one(-v.x);
    crate::fixed::lemma_fmul_one(-v.y);
    crate::fixed::lemma_fmul_one(-v.z);
    crate::fixed::lemma_fmul_neg_one(-v.x);
    crate::fixed::lemma_fmul_neg_one(-v.y);
    crate::fixed::lemma_fmul_neg_one(-v.z);
    crate::fixed::lemma_fmul_zero(-v.x);
    crate::fixed::lemma_fmul_zero(-v.y);
    crate::fixed::lemma_fmul_zero(-v.z);
    assert((-v.x) * (-v.x) == v.x * v.x) by (nonlinear_arith);
    assert((-v.y) * (-v.y) == v.y * v.y) by (nonlinear_arith);
    assert((-v.z) * (-v.z) == v.z * v.z) by (nonlinear_arith);
}

} // verus!
