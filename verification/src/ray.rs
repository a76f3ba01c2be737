//! A ray: origin plus direction, with the point-at-parameter evaluator.

use vstd::prelude::*;
use crate::vec::{Vec3, V3, vadd_s, scale_s, in_range3, dot_s};
use crate::fixed::{SCALE, lemma_fmul_range, lemma_tdiv_exact};

verus! {

/// Positions (ray origins, sphere centers) and radii stay within this many
/// quanta per component.
pub const POS_LIM: i64 = 0x800_0000;

/// Ray directions stay within this many quanta per component.
pub const DIR_LIM: i64 = 0x20_0000;

/// Ray parameters stay within this magnitude; it stands in for an infinite
/// upper range in intersection queries.
pub const T_LIM: i64 = 0x2_0000_0000;

pub ghost struct RayV {
    pub origin: V3,
    pub dir: V3,
}

#[derive(Clone, Copy)]
pub struct Ray {
    pub origin: Vec3,
    pub dir: Vec3,
}

impl View for Ray {
    type V = RayV;

    open spec fn view(&self) -> RayV {
        RayV { origin: self.origin@, dir: self.dir@ }
    }
}

pub open spec fn at_s(r: RayV, t: int) -> V3 {
    vadd_s(r.origin, scale_s(t, r.dir))
}

/// A ray the tracer will follow: bounded origin and direction, with a
/// direction long enough to have positive squared length.
pub open spec fn ray_ok(r: RayV) -> bool {
    &&& in_range3(r.origin, POS_LIM as int)
    &&& in_range3(r.dir, DIR_LIM as int)
    &&& 1 <= dot_s(r.dir, r.dir)
}

impl Ray {
    pub fn new(origin: Vec3, dir: Vec3) -> (r: Ray)
        ensures
            r@.origin == origin@,
            r@.dir == dir@,
    {
        Ray { origin, dir }
    }

    /// The point `origin + t * dir`.
    pub fn at(self, t: i64) -> (r: Vec3)
        requires
            in_range3(self@.origin, 0x800_0000),
            in_range3(self@.dir, 0x20_0000),
            -0x2_0000_0000 <= t <= 0x2_0000_0000,
        ensures
            r@ == at_s(self@, t as int),
            in_range3(r@, 0x48_0000_0000),
    {
        proof {
            lemma_fmul_range(t as int, self@.dir.x, 0x2_0000_0000, 0x20_0000);
            lemma_fmul_range(t as int, self@.dir.y, 0x2_0000_0000, 0x20_0000);
            lemma_fmul_range(t as int, self@.dir.z, 0x2_0000_0000, 0x20_0000);
            lemma_tdiv_exact(0x40_0000_0000, SCALE as int);
            assert(0x2_0000_0000 * 0x20_0000 == 0x40_0000_0000 * 65536) by (nonlinear_arith);
        }
        self.origin.add(self.dir.mul(t))
    }
}

} // verus!
