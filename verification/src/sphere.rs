//! The one geometric primitive: a sphere, intersected by solving the
//! quadratic `(D.D) t^2 + 2 (O-C).D t + ((O-C).(O-C) - r^2) = 0` in fixed
//! point, trying the nearer root first.

use vstd::prelude::*;
use crate::vec::{Vec3, V3, vsub_s, vneg_s, dot_s, in_range3, norm_s};
use crate::vec::{lemma_dot_fits_from_range, lemma_fmul_self_nonneg};
use crate::fixed::{SCALE, fmul_s, fdiv_s, sqrt_fx_s, fmul, fdiv, sqrt_fx};
use crate::fixed::{lemma_fmul_range, lemma_tdiv_exact, lemma_fdiv_range, lemma_isqrt_le};
use crate::ray::{Ray, RayV, at_s, ray_ok, POS_LIM, T_LIM};
use crate::hittable::HitRecord;

verus! {

pub ghost struct SphereV {
    pub center: V3,
    pub radius: int,
    pub mat: int,
}

/// An immutable sphere with a handle into the scene's material arena.
pub struct Sphere {
    pub center: Vec3,
    pub radius: i64,
    pub mat: usize,
}

impl View for Sphere {
    type V = SphereV;

    open spec fn view(&self) -> SphereV {
        SphereV { center: self.center@, radius: self.radius as int, mat: self.mat as int }
    }
}

/// Smallest radius a well-formed sphere may have: a quarter of one
/// percent of a unit. Below this the 2^16 quantization cannot reliably
/// separate a hit point from the center to orient a normal.
pub const RADIUS_MIN: i64 = 256;

/// A sphere the tracer accepts: bounded center, radius between the
/// quantization floor and the coordinate bound.
pub open spec fn sphere_wf(s: SphereV) -> bool {
    &&& in_range3(s.center, POS_LIM as int)
    &&& RADIUS_MIN <= s.radius <= POS_LIM as int
    &&& 0 <= s.mat
}

pub open spec fn quad_a_s(ray: RayV) -> int {
    dot_s(ray.dir, ray.dir)
}

pub open spec fn oc_s(c: V3, ray: RayV) -> V3 {
    vsub_s(ray.origin, c)
}

pub open spec fn quad_b_s(c: V3, ray: RayV) -> int {
    2 * dot_s(oc_s(c, ray), ray.dir)
}

pub open spec fn quad_c_s(c: V3, rad: int, ray: RayV) -> int {
    dot_s(oc_s(c, ray), oc_s(c, ray)) - fmul_s(rad, rad)
}

pub open spec fn disc_s(c: V3, rad: int, ray: RayV) -> int {
    fmul_s(quad_b_s(c, ray), quad_b_s(c, ray)) - fmul_s(4 * quad_a_s(ray), quad_c_s(c, rad, ray))
}

pub open spec fn root1_s(c: V3, rad: int, ray: RayV) -> int {
    fdiv_s(-quad_b_s(c, ray) - sqrt_fx_s(disc_s(c, rad, ray)), 2 * quad_a_s(ray))
}

pub open spec fn root2_s(c: V3, rad: int, ray: RayV) -> int {
    fdiv_s(-quad_b_s(c, ray) + sqrt_fx_s(disc_s(c, rad, ray)), 2 * quad_a_s(ray))
}

/// Acceptance of a ray parameter: strictly inside the open query range.
pub open spec fn t_in(t: int, tmin: int, tmax: int) -> bool {
    tmin < t && t < tmax
}

/// The root the intersection reports: the nearer one if acceptable, else
/// the farther one.
pub open spec fn sel_root_s(c: V3, rad: int, ray: RayV, tmin: int, tmax: int) -> int {
    if t_in(root1_s(c, rad, ray), tmin, tmax) {
        root1_s(c, rad, ray)
    } else {
        root2_s(c, rad, ray)
    }
}

/// Whether the sphere reports a hit: non-negative discriminant, a root in
/// range, and a hit point far enough from the center to orient a normal.
/// The last conjunct is policy, not geometry: in fixed point the computed
/// hit point can land within one quantum of the center (only near the
/// quantization floor of the radius), and such an intersection is reported
/// as a miss rather than carrying an undefined normal.
pub open spec fn sphere_hits_s(c: V3, rad: int, ray: RayV, tmin: int, tmax: int) -> bool {
    &&& disc_s(c, rad, ray) >= 0
    &&& (t_in(root1_s(c, rad, ray), tmin, tmax) || t_in(root2_s(c, rad, ray), tmin, tmax))
    &&& 1 <= dot_s(
        vsub_s(at_s(ray, sel_root_s(c, rad, ray, tmin, tmax)), c),
        vsub_s(at_s(ray, sel_root_s(c, rad, ray, tmin, tmax)), c),
    )
}

/// The outward unit normal at the hit point.
pub open spec fn outward_s(c: V3, ray: RayV, t: int) -> V3 {
    norm_s(vsub_s(at_s(ray, t), c))
}

pub open spec fn front_face_s(c: V3, ray: RayV, t: int) -> bool {
    dot_s(ray.dir, outward_s(c, ray, t)) < 0
}

/// The stored normal: the outward normal, flipped to oppose the ray when it
/// struck the inside.
pub open spec fn hit_normal_s(c: V3, ray: RayV, t: int) -> V3 {
    if front_face_s(c, ray, t) {
        outward_s(c, ray, t)
    } else {
        vneg_s(outward_s(c, ray, t))
    }
}

impl Sphere {
    pub fn new(center: Vec3, radius: i64, mat: usize) -> (r: Sphere)
        ensures
            r@.center == center@,
            r@.radius == radius as int,
            r@.mat == mat as int,
    {
        Sphere { center, radius, mat }
    }

    /// The nearest intersection with `ray` whose parameter lies strictly in
    /// `(t_min, t_max)`, or none.
    pub fn hit(&self, ray: &Ray, t_min: i64, t_max: i64) -> (r: Option<HitRecord>)
        requires
            sphere_wf(self@),
            ray_ok(ray@),
            -T_LIM <= t_min <= T_LIM as int,
            -T_LIM <= t_max <= T_LIM as int,
        ensures
            (r is Some) == sphere_hits_s(self@.center, self@.radius, ray@, t_min as int,
                t_max as int),
            r matches Some(rec) ==> {
                &&& rec.t as int == sel_root_s(self@.center, self@.radius, ray@, t_min as int,
                    t_max as int)
                &&& t_in(rec.t as int, t_min as int, t_max as int)
                &&& rec.point@ == at_s(ray@, rec.t as int)
                &&& rec.front_face == front_face_s(self@.center, ray@, rec.t as int)
                &&& rec.normal@ == hit_normal_s(self@.center, ray@, rec.t as int)
                &&& in_range3(rec.normal@, 2 * SCALE as int)
                &&& in_range3(rec.point@, 0x48_0000_0000)
                &&& rec.mat == self.mat
            },
    {
        let ghost cg: V3 = self@.center;
        let ghost radg: int = self@.radius;
        proof {
            lemma_dot_fits_from_range(ray@.dir, ray@.dir, 0x20_0000, 0x20_0000);
            lemma_tdiv_exact(0x400_0000, SCALE as int);
            assert(0x20_0000 * 0x20_0000 == 0x400_0000 * 65536) by (nonlinear_arith);
        }
        let a: i64 = ray.dir.dot(ray.dir);
        let oc: Vec3 = ray.origin.sub(self.center);
        proof {
            lemma_dot_fits_from_range(oc@, ray@.dir, 0x1000_0000, 0x20_0000);
            lemma_tdiv_exact(0x2_0000_0000, SCALE as int);
            assert(0x1000_0000 * 0x20_0000 == 0x2_0000_0000 * 65536) by (nonlinear_arith);
        }
        let b: i64 = 2 * oc.dot(ray.dir);
        proof {
            lemma_dot_fits_from_range(oc@, oc@, 0x1000_0000, 0x1000_0000);
            lemma_tdiv_exact(0x100_0000_0000, SCALE as int);
            assert(0x1000_0000 * 0x1000_0000 == 0x100_0000_0000 * 65536) by (nonlinear_arith);
            lemma_fmul_range(radg, radg, 0x800_0000, 0x800_0000);
            lemma_tdiv_exact(0x40_0000_0000, SCALE as int);
            assert(0x800_0000 * 0x800_0000 == 0x40_0000_0000 * 65536) by (nonlinear_arith);
            lemma_fmul_self_nonneg(radg);
        }
        let c: i64 = oc.dot(oc) - fmul(self.radius, self.radius);
        let a4: i64 = 4 * a;
        proof {
            lemma_fmul_range(b as int, b as int, 0x10_0000_0000, 0x10_0000_0000);
            lemma_tdiv_exact(0x100_0000_0000_0000, SCALE as int);
            assert(0x10_0000_0000 * 0x10_0000_0000 == 0x100_0000_0000_0000 * 65536)
                by (nonlinear_arith);
            lemma_fmul_range(a4 as int, c as int, 0x4000_0000, 0x400_0000_0000);
            assert(0x4000_0000 * 0x400_0000_0000 == 0x100_0000_0000_0000 * 65536)
                by (nonlinear_arith);
        }
        let disc: i64 = fmul(b, b) - fmul(a4, c);

        if disc < 0 {
            return None;
        }
        proof {
            assert((disc as int) * 65536 <= 0x20_0000_0000 * 0x20_0000_0000) by (nonlinear_arith)
                requires
                    0 <= disc as int <= 0x200_0000_0000_0000,
            ;
            lemma_isqrt_le(((disc as int) * SCALE) as nat, 0x20_0000_0000 as nat);
        }
        let sqrtd: i64 = sqrt_fx(disc);
        let a2: i64 = 2 * a;
        proof {
            lemma_fdiv_range((-b - sqrtd) as int, a2 as int, 0x2C_0000_0000);
            lemma_fdiv_range((-b + sqrtd) as int, a2 as int, 0x2C_0000_0000);
        }
        let mut root: i64 = fdiv(-b - sqrtd, a2);
        if root <= t_min || root >= t_max {
            root = fdiv(-b + sqrtd, a2);
            if root <= t_min || root >= t_max {
                return None;
            }
        }
        let point: Vec3 = ray.at(root);
        let pc: Vec3 = point.sub(self.center);
        proof {
            lemma_dot_fits_from_range(pc@, pc@, 0x50_0000_0000, 0x50_0000_0000);
        }
        let d2: i64 = pc.dot(pc);
        if d2 < 1 {
            return None;
        }
        let outward: Vec3 = pc.norm();
        proof {
            lemma_dot_fits_from_range(ray@.dir, outward@, 0x20_0000, 2 * SCALE as int);
        }
        let ff: bool = ray.dir.dot(outward) < 0;
        let normal: Vec3 = if ff {
            outward
        } else {
            outward.neg()
        };
        Some(HitRecord { point, normal, mat: self.mat, t: root, front_face: ff })
    }
}


/// The two quadratic roots come out ordered: the subtracted square root
/// gives the nearer one.
pub proof fn lemma_roots_ordered(c: V3, rad: int, ray: RayV)
    requires
        1 <= quad_a_s(ray),
    ensures
        root1_s(c, rad, ray) <= root2_s(c, rad, ray),
{
    let b = quad_b_s(c, ray);
    let s = sqrt_fx_s(disc_s(c, rad, ray));
    assert(s >= 0);
    assert((-b - s) * SCALE <= (-b + s) * SCALE) by (nonlinear_arith)
        requires
            s >= 0,
            SCALE == 65536,
    ;
    crate::fixed::lemma_tdiv_mono((-b - s) * SCALE, (-b + s) * SCALE, 2 * quad_a_s(ray));
}

/// Widening the upper bound of the query range keeps a hit, and keeps the
/// same selected root.
pub proof fn lemma_sphere_range_mono(c: V3, rad: int, ray: RayV, tmin: int, t1: int, t2: int)
    requires
        t1 <= t2,
        1 <= quad_a_s(ray),
        sphere_hits_s(c, rad, ray, tmin, t1),
    ensures
        sphere_hits_s(c, rad, ray, tmin, t2),
        sel_root_s(c, rad, ray, tmin, t1) == sel_root_s(c, rad, ray, tmin, t2),
{
    lemma_roots_ordered(c, rad, ray);
    let r1 = root1_s(c, rad, ray);
    let r2 = root2_s(c, rad, ray);
    if t_in(r1, tmin, t1) {
        assert(t_in(r1, tmin, t2));
    } else {
        assert(t_in(r2, tmin, t1));
        assert(r1 <= tmin);
        assert(!t_in(r1, tmin, t2));
        assert(t_in(r2, tmin, t2));
    }
}

/// A sphere never hits strictly closer than its own selected root.
pub proof fn lemma_sphere_self_not_closer(c: V3, rad: int, ray: RayV, tmin: int, tmax: int)
    requires
        1 <= quad_a_s(ray),
        sphere_hits_s(c, rad, ray, tmin, tmax),
    ensures
        !sphere_hits_s(c, rad, ray, tmin, sel_root_s(c, rad, ray, tmin, tmax)),
        t_in(sel_root_s(c, rad, ray, tmin, tmax), tmin, tmax),
{
    lemma_roots_ordered(c, rad, ray);
    let r1 = root1_s(c, rad, ray);
    let r2 = root2_s(c, rad, ray);
    if t_in(r1, tmin, tmax) {
        assert(!t_in(r1, tmin, r1));
        assert(!t_in(r2, tmin, r1));
    } else {
        assert(t_in(r2, tmin, tmax));
        assert(r1 <= tmin);
        assert(!t_in(r1, tmin, r2));
        assert(!t_in(r2, tmin, r2));
    }
}

} // verus!
