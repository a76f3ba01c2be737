//! The material scattering model: diffuse (Lambertian), metallic and
//! dielectric responses, dispatched through a closed variant set.

use vstd::prelude::*;
use crate::vec::{Vec3, V3, vadd_s, vneg_s, dot_s, in_range3, norm_s, near_zero_s, reflect_s,
    refract_s, refract_cos_s, scale_s};
use crate::vec::{lemma_dot_fits_from_range, lemma_fmul_self_nonneg};
use crate::fixed::{SCALE, fmul_s, fdiv_s, sqrt_fx_s, fmul, fdiv, sqrt_fx};
use crate::fixed::{lemma_fmul_range, lemma_tdiv_exact, lemma_tdiv_range, lemma_fmul_zero,
    lemma_fmul_one, lemma_isqrt_le};
use crate::ray::{Ray, RayV, DIR_LIM};
use crate::hittable::HitRecord;
use crate::rng::random_unit;

verus! {

/// A color or reflectance triple: every channel within `[0, 1]`.
pub open spec fn albedo_ok(v: V3) -> bool {
    &&& 0 <= v.x <= SCALE as int
    &&& 0 <= v.y <= SCALE as int
    &&& 0 <= v.z <= SCALE as int
}

/// What every scatter call assumes of its inputs: the hit record's normal
/// and point as the intersection routine bounds them, and a usable
/// incoming direction.
pub open spec fn scatter_in_ok(ray: RayV, rec: HitRecord) -> bool {
    &&& in_range3(rec.normal@, 2 * SCALE as int)
    &&& in_range3(rec.point@, 0x48_0000_0000)
    &&& in_range3(ray.dir, DIR_LIM as int)
    &&& 1 <= dot_s(ray.dir, ray.dir)
}

#[derive(Clone, Copy)]
pub struct Lambertian {
    pub albedo: Vec3,
}

#[derive(Clone, Copy)]
pub struct Metal {
    pub albedo: Vec3,
    pub fuzz: i64,
}

#[derive(Clone, Copy)]
pub struct Dielectric {
    pub refr_index: i64,
}

pub ghost enum MaterialV {
    Lambertian { albedo: V3 },
    Metal { albedo: V3, fuzz: int },
    Dielectric { refr_index: int },
}

/// The closed set of material variants a scene can hold.
#[derive(Clone, Copy)]
pub enum Material {
    Lambertian(Lambertian),
    Metal(Metal),
    Dielectric(Dielectric),
}

impl View for Material {
    type V = MaterialV;

    open spec fn view(&self) -> MaterialV {
        match self {
            Material::Lambertian(l) => MaterialV::Lambertian { albedo: l.albedo@ },
            Material::Metal(m) => MaterialV::Metal { albedo: m.albedo@, fuzz: m.fuzz as int },
            Material::Dielectric(d) => MaterialV::Dielectric { refr_index: d.refr_index as int },
        }
    }
}

/// Parameter validity for each variant: colors in `[0, 1]`, fuzz in
/// `[0, 1]`, refractive index within a sixteen-fold band around one.
pub open spec fn material_wf(m: MaterialV) -> bool {
    match m {
        MaterialV::Lambertian { albedo } => albedo_ok(albedo),
        MaterialV::Metal { albedo, fuzz } => albedo_ok(albedo) && 0 <= fuzz <= SCALE as int,
        MaterialV::Dielectric { refr_index } => 4096 <= refr_index <= 16 * SCALE as int,
    }
}

/// The ratio of refractive indices the dielectric uses: inverted when the
/// ray enters from outside.
pub open spec fn refr_ratio_s(index: int, front: bool) -> int {
    if front {
        fdiv_s(SCALE as int, index)
    } else {
        index
    }
}

/// Squared sine from the clamped cosine, floored at zero.
pub open spec fn sin2_s(uv: V3, n: V3) -> int {
    let c = refract_cos_s(uv, n);
    if SCALE as int - fmul_s(c, c) < 0 {
        0
    } else {
        SCALE as int - fmul_s(c, c)
    }
}

pub open spec fn sin_theta_s(uv: V3, n: V3) -> int {
    sqrt_fx_s(sin2_s(uv, n))
}

/// Total internal reflection: the scaled sine leaves the unit range.
pub open spec fn cannot_refract_s(uv: V3, n: V3, ratio: int) -> bool {
    fmul_s(ratio, sin_theta_s(uv, n)) > SCALE as int
}

pub open spec fn pow5_s(x: int) -> int {
    fmul_s(fmul_s(fmul_s(fmul_s(x, x), x), x), x)
}

/// Schlick's approximation of Fresnel reflectance.
pub open spec fn reflectance_s(cosine: int, ratio: int) -> int {
    let q = fdiv_s(SCALE as int - ratio, SCALE as int + ratio);
    let r0 = fmul_s(q, q);
    r0 + fmul_s(SCALE as int - r0, pow5_s(SCALE as int - cosine))
}

/// A ratio of exactly one never reports total internal reflection: the
/// sine never exceeds one, and scaling by one is exact.
pub proof fn lemma_unit_ratio_never_cannot_refract(uv: V3, n: V3)
    ensures
        !cannot_refract_s(uv, n, SCALE as int),
{
    lemma_fmul_self_nonneg(refract_cos_s(uv, n));
    let s2 = sin2_s(uv, n);
    assert(0 <= s2 <= SCALE as int);
    let s = sin_theta_s(uv, n);
    assert(s2 * SCALE <= 65536 * 65536) by (nonlinear_arith)
        requires
            0 <= s2 <= 65536,
            SCALE == 65536,
    ;
    lemma_isqrt_le((s2 * SCALE) as nat, 65536nat);
    lemma_fmul_one(s);
}

impl Lambertian {
    pub fn new(albedo: Vec3) -> (r: Lambertian)
        ensures
            r.albedo == albedo,
    {
        Lambertian { albedo }
    }

    /// Diffuse scatter: always scatters, toward the normal jittered by a
    /// point of the unit ball, falling back to the normal itself when the
    /// sum degenerates. The attenuation is exactly the albedo.
    pub fn scatter(&self, ray_in: &Ray, rec: &HitRecord) -> (r: Option<(Vec3, Ray)>)
        requires
            albedo_ok(self.albedo@),
            scatter_in_ok(ray_in@, *rec),
        ensures
            r is Some,
            r matches Some((att, sc)) ==> {
                &&& att == self.albedo
                &&& sc@.origin == rec.point@
                &&& in_range3(sc@.dir, 3 * SCALE as int)
                &&& (sc@.dir == rec.normal@ || (!near_zero_s(sc@.dir) && exists|u: V3|
                    in_range3(u, SCALE as int) && dot_s(u, u) < SCALE as int && sc@.dir
                        == vadd_s(rec.normal@, u)))
            },
    {
        let rnd = Vec3::get_random_in_unit_sphere();
        let cand = rec.normal.add(rnd);
        let dir = if cand.near_zero() {
            rec.normal
        } else {
            cand
        };
        proof {
            if !near_zero_s(cand@) {
                assert(in_range3(rnd@, SCALE as int) && dot_s(rnd@, rnd@) < SCALE as int
                    && cand@ == vadd_s(rec.normal@, rnd@));
            }
        }
        Some((self.albedo, Ray::new(rec.point, dir)))
    }
}

impl Metal {
    pub fn new(albedo: Vec3, fuzz: i64) -> (r: Metal)
        ensures
            r.albedo == albedo,
            r.fuzz == fuzz,
    {
        Metal { albedo, fuzz }
    }

    /// Metallic scatter: the mirror reflection of the normalized incoming
    /// direction, perturbed by `fuzz` times a point of the unit ball;
    /// absorbed when the result points below the surface. With zero fuzz
    /// the scattered direction is exactly the mirror reflection.
    pub fn scatter(&self, ray_in: &Ray, rec: &HitRecord) -> (r: Option<(Vec3, Ray)>)
        requires
            albedo_ok(self.albedo@),
            0 <= self.fuzz <= SCALE as int,
            scatter_in_ok(ray_in@, *rec),
        ensures
            r matches Some((att, sc)) ==> {
                &&& att == self.albedo
                &&& sc@.origin == rec.point@
                &&& dot_s(sc@.dir, rec.normal@) > 0
                &&& in_range3(sc@.dir, 51 * SCALE as int)
            },
            r matches Some((att, sc)) ==> exists|p: V3|
                in_range3(p, SCALE as int) && dot_s(p, p) < SCALE as int && sc@.dir == vadd_s(
                    reflect_s(norm_s(ray_in@.dir), rec.normal@),
                    scale_s(self.fuzz as int, p),
                ),
            self.fuzz == 0 ==> (r is Some) == (dot_s(
                reflect_s(norm_s(ray_in@.dir), rec.normal@),
                rec.normal@,
            ) > 0),
            self.fuzz == 0 ==> (r matches Some((att, sc)) ==> sc@.dir == reflect_s(
                norm_s(ray_in@.dir),
                rec.normal@,
            )),
    {
        proof {
            lemma_dot_fits_from_range(ray_in@.dir, ray_in@.dir, DIR_LIM as int, DIR_LIM as int);
        }
        let unit = ray_in.dir.norm();
        let reflected = unit.reflect(rec.normal);
        proof {
            lemma_dot_fits_from_range(unit@, rec.normal@, 2 * SCALE as int, 2 * SCALE as int);
            lemma_tdiv_exact(4 * SCALE as int, SCALE as int);
            assert(2 * SCALE as int * (2 * SCALE as int) == 4 * SCALE as int * (SCALE as int))
                by (nonlinear_arith)
                requires
                    SCALE == 65536,
            ;
            let d: int = dot_s(norm_s(ray_in@.dir), rec.normal@);
            lemma_fmul_range(2 * d, rec.normal@.x, 24 * SCALE as int, 2 * SCALE as int);
            lemma_fmul_range(2 * d, rec.normal@.y, 24 * SCALE as int, 2 * SCALE as int);
            lemma_fmul_range(2 * d, rec.normal@.z, 24 * SCALE as int, 2 * SCALE as int);
            lemma_tdiv_exact(48 * SCALE as int, SCALE as int);
            assert(24 * SCALE as int * (2 * SCALE as int) == 48 * SCALE as int * (SCALE as int))
                by (nonlinear_arith)
                requires
                    SCALE == 65536,
            ;
        }
        let rnd = Vec3::get_random_in_unit_sphere();
        proof {
            lemma_fmul_range(self.fuzz as int, rnd@.x, SCALE as int, SCALE as int);
            lemma_fmul_range(self.fuzz as int, rnd@.y, SCALE as int, SCALE as int);
            lemma_fmul_range(self.fuzz as int, rnd@.z, SCALE as int, SCALE as int);
            lemma_tdiv_exact(SCALE as int, SCALE as int);
            if self.fuzz == 0 {
                lemma_fmul_zero(rnd@.x);
                lemma_fmul_zero(rnd@.y);
                lemma_fmul_zero(rnd@.z);
            }
        }
        let offset = rnd.mul(self.fuzz);
        let dir = reflected.add(offset);
        proof {
            lemma_dot_fits_from_range(dir@, rec.normal@, 51 * SCALE as int, 2 * SCALE as int);
        }
        let d: i64 = dir.dot(rec.normal);
        proof {
            assert(in_range3(rnd@, SCALE as int) && dot_s(rnd@, rnd@) < SCALE as int && dir@
                == vadd_s(
                reflect_s(norm_s(ray_in@.dir), rec.normal@),
                scale_s(self.fuzz as int, rnd@),
            ));
        }
        if d > 0 {
            Some((self.albedo, Ray::new(rec.point, dir)))
        } else {
            None
        }
    }
}

/// Fifth power in fixed point, for Schlick's approximation.
fn pow5(x: i64) -> (r: i64)
    requires
        0 <= x <= 13 * SCALE as int,
    ensures
        r as int == pow5_s(x as int),
        r >= 0,
{
    proof {
        lemma_fmul_range(x as int, x as int, 13 * SCALE as int, 13 * SCALE as int);
        lemma_tdiv_exact(169 * SCALE as int, SCALE as int);
        assert(13 * SCALE as int * (13 * SCALE as int) == 169 * SCALE as int * (SCALE as int))
            by (nonlinear_arith)
            requires
                SCALE == 65536,
        ;
    }
    let x2: i64 = fmul(x, x);
    proof {
        lemma_fmul_range(x2 as int, x as int, 169 * SCALE as int, 13 * SCALE as int);
        lemma_tdiv_exact(2197 * SCALE as int, SCALE as int);
        assert(169 * SCALE as int * (13 * SCALE as int) == 2197 * SCALE as int * (SCALE as int))
            by (nonlinear_arith)
            requires
                SCALE == 65536,
        ;
    }
    let x3: i64 = fmul(x2, x);
    proof {
        lemma_fmul_range(x3 as int, x as int, 2197 * SCALE as int, 13 * SCALE as int);
        lemma_tdiv_exact(28561 * SCALE as int, SCALE as int);
        assert(2197 * SCALE as int * (13 * SCALE as int) == 28561 * SCALE as int * (SCALE as int))
            by (nonlinear_arith)
            requires
                SCALE == 65536,
        ;
    }
    let x4: i64 = fmul(x3, x);
    proof {
        lemma_fmul_range(x4 as int, x as int, 28561 * SCALE as int, 13 * SCALE as int);
        lemma_tdiv_exact(371293 * SCALE as int, SCALE as int);
        assert(28561 * SCALE as int * (13 * SCALE as int) == 371293 * SCALE as int * (
        SCALE as int)) by (nonlinear_arith)
            requires
                SCALE == 65536,
        ;
        lemma_fmul_self_nonneg(x as int);
        vstd::arithmetic::div_mod::lemma_div_pos_is_pos((x2 as int) * (x as int), SCALE as int);
        assert(0 <= (x2 as int) * (x as int)) by (nonlinear_arith)
            requires
                0 <= x2 as int,
                0 <= x as int,
        ;
        vstd::arithmetic::div_mod::lemma_div_pos_is_pos((x3 as int) * (x as int), SCALE as int);
        assert(0 <= (x3 as int) * (x as int)) by (nonlinear_arith)
            requires
                0 <= x3 as int,
                0 <= x as int,
        ;
        vstd::arithmetic::div_mod::lemma_div_pos_is_pos((x4 as int) * (x as int), SCALE as int);
        assert(0 <= (x4 as int) * (x as int)) by (nonlinear_arith)
            requires
                0 <= x4 as int,
                0 <= x as int,
        ;
    }
    fmul(x4, x)
}

impl Dielectric {
    pub fn new(refr_index: i64) -> (r: Dielectric)
        ensures
            r.refr_index == refr_index,
    {
        Dielectric { refr_index }
    }

    /// Schlick's reflectance approximation for a cosine and an index ratio.
    fn reflectance(cosine: i64, ratio: i64) -> (r: i64)
        requires
            0 < ratio <= 16 * SCALE as int,
            -12 * SCALE as int <= cosine <= SCALE as int,
        ensures
            r as int == reflectance_s(cosine as int, ratio as int),
    {
        proof {
            lemma_q_unit(SCALE as int - ratio as int, SCALE as int + ratio as int);
        }
        let q: i64 = fdiv(SCALE - ratio, SCALE + ratio);
        proof {
            lemma_fmul_range(q as int, q as int, SCALE as int, SCALE as int);
            lemma_tdiv_exact(SCALE as int, SCALE as int);
            lemma_fmul_self_nonneg(q as int);
        }
        let r0: i64 = fmul(q, q);
        let c5: i64 = pow5(SCALE - cosine);
        proof {
            lemma_pow5_bound(SCALE as int - cosine as int);
            lemma_fmul_range(
                SCALE as int - r0 as int,
                c5 as int,
                SCALE as int,
                371293 * SCALE as int,
            );
            lemma_tdiv_exact(371293 * SCALE as int, SCALE as int);
            assert(SCALE as int * (371293 * SCALE as int) == 371293 * SCALE as int * (
            SCALE as int)) by (nonlinear_arith);
        }
        r0 + fmul(SCALE - r0, c5)
    }

    /// Dielectric scatter: always scatters with white attenuation; the
    /// direction is the mirror reflection under total internal reflection
    /// or a Schlick-weighted coin flip, else the Snell refraction.
    pub fn scatter(&self, ray_in: &Ray, rec: &HitRecord) -> (r: Option<(Vec3, Ray)>)
        requires
            4096 <= self.refr_index <= 16 * SCALE as int,
            scatter_in_ok(ray_in@, *rec),
        ensures
            r is Some,
            r matches Some((att, sc)) ==> {
                &&& att@ == (V3 { x: SCALE as int, y: SCALE as int, z: SCALE as int })
                &&& sc@.origin == rec.point@
                &&& (sc@.dir == reflect_s(norm_s(ray_in@.dir), rec.normal@) || sc@.dir
                    == refract_s(
                    norm_s(ray_in@.dir),
                    rec.normal@,
                    refr_ratio_s(self.refr_index as int, rec.front_face),
                ))
                &&& (cannot_refract_s(
                    norm_s(ray_in@.dir),
                    rec.normal@,
                    refr_ratio_s(self.refr_index as int, rec.front_face),
                ) ==> sc@.dir == reflect_s(norm_s(ray_in@.dir), rec.normal@))
                &&& in_range3(sc@.dir, 1858 * SCALE as int)
            },
    {
        proof {
            lemma_dot_fits_from_range(ray_in@.dir, ray_in@.dir, DIR_LIM as int, DIR_LIM as int);
        }
        let unit = ray_in.dir.norm();
        proof {
            lemma_ratio_range(self.refr_index as int);
        }
        let ratio: i64 = if rec.front_face {
            fdiv(SCALE, self.refr_index)
        } else {
            self.refr_index
        };
        proof {
            lemma_dot_fits_from_range(
                vneg_s(unit@),
                rec.normal@,
                2 * SCALE as int,
                2 * SCALE as int,
            );
            lemma_tdiv_exact(4 * SCALE as int, SCALE as int);
            assert(2 * SCALE as int * (2 * SCALE as int) == 4 * SCALE as int * (SCALE as int))
                by (nonlinear_arith)
                requires
                    SCALE == 65536,
            ;
        }
        let cos_raw: i64 = unit.neg().dot(rec.normal);
        let cos: i64 = if cos_raw < SCALE {
            cos_raw
        } else {
            SCALE
        };
        proof {
            lemma_fmul_range(cos as int, cos as int, 12 * SCALE as int, 12 * SCALE as int);
            lemma_tdiv_exact(144 * SCALE as int, SCALE as int);
            assert(12 * SCALE as int * (12 * SCALE as int) == 144 * SCALE as int * (SCALE as int))
                by (nonlinear_arith)
                requires
                    SCALE == 65536,
            ;
        }
        proof {
            lemma_fmul_self_nonneg(cos as int);
        }
        let cc: i64 = fmul(cos, cos);
        let sin2_raw: i64 = SCALE - cc;
        let sin2: i64 = if sin2_raw < 0 {
            0
        } else {
            sin2_raw
        };
        proof {
            assert((sin2 as int) * SCALE <= 65536 * 65536) by (nonlinear_arith)
                requires
                    0 <= sin2 as int <= 65536,
                    SCALE == 65536,
            ;
            lemma_isqrt_le(((sin2 as int) * SCALE) as nat, 65536nat);
        }
        let sin: i64 = sqrt_fx(sin2);
        proof {
            lemma_fmul_range(ratio as int, sin as int, 16 * SCALE as int, SCALE as int);
            lemma_tdiv_exact(16 * SCALE as int, SCALE as int);
            assert(16 * SCALE as int * (SCALE as int) == 16 * SCALE as int * (SCALE as int));
        }
        let cannot: bool = fmul(ratio, sin) > SCALE;
        let draw: i64 = random_unit();
        let refl_prob: i64 = Dielectric::reflectance(cos, ratio);
        let dir: Vec3 = if cannot || draw < refl_prob {
            unit.reflect(rec.normal)
        } else {
            unit.refract(rec.normal, ratio)
        };
        proof {
            lemma_reflect_dir_range(unit@, rec.normal@);
        }
        Some((Vec3::new(SCALE, SCALE, SCALE), Ray::new(rec.point, dir)))
    }
}

/// The quotient `(1 - ratio) / (1 + ratio)` stays within the unit range.
proof fn lemma_q_unit(num: int, den: int)
    requires
        -den < num <= den,
        0 < den <= 17 * SCALE as int,
    ensures
        -(SCALE as int) <= fdiv_s(num, den) <= SCALE as int,
{
    assert(-(den * SCALE) <= num * SCALE <= den * SCALE) by (nonlinear_arith)
        requires
            -den <= num <= den,
            SCALE == 65536,
    ;
    lemma_tdiv_range(num * SCALE, den * SCALE, den);
    assert(den * SCALE == SCALE as int * den) by (nonlinear_arith);
    lemma_tdiv_exact(SCALE as int, den);
}

/// The fifth power of a value in `[0, 13]` stays below `372000`.
proof fn lemma_pow5_bound(x: int)
    requires
        0 <= x <= 13 * SCALE as int,
    ensures
        0 <= pow5_s(x) <= 371293 * SCALE as int,
{
    lemma_fmul_range(x, x, 13 * SCALE as int, 13 * SCALE as int);
    lemma_tdiv_exact(169 * SCALE as int, SCALE as int);
    assert(13 * SCALE as int * (13 * SCALE as int) == 169 * SCALE as int * (SCALE as int))
        by (nonlinear_arith)
        requires
            SCALE == 65536,
    ;
    let x2 = fmul_s(x, x);
    lemma_fmul_range(x2, x, 169 * SCALE as int, 13 * SCALE as int);
    lemma_tdiv_exact(2197 * SCALE as int, SCALE as int);
    assert(169 * SCALE as int * (13 * SCALE as int) == 2197 * SCALE as int * (SCALE as int))
        by (nonlinear_arith)
        requires
            SCALE == 65536,
    ;
    let x3 = fmul_s(x2, x);
    lemma_fmul_range(x3, x, 2197 * SCALE as int, 13 * SCALE as int);
    lemma_tdiv_exact(28561 * SCALE as int, SCALE as int);
    assert(2197 * SCALE as int * (13 * SCALE as int) == 28561 * SCALE as int * (SCALE as int))
        by (nonlinear_arith)
        requires
            SCALE == 65536,
    ;
    let x4 = fmul_s(x3, x);
    lemma_fmul_range(x4, x, 28561 * SCALE as int, 13 * SCALE as int);
    lemma_tdiv_exact(371293 * SCALE as int, SCALE as int);
    assert(28561 * SCALE as int * (13 * SCALE as int) == 371293 * SCALE as int * (SCALE as int))
        by (nonlinear_arith)
        requires
            SCALE == 65536,
    ;
    lemma_fmul_self_nonneg(x);
    assert(0 <= x2 * x) by (nonlinear_arith)
        requires
            0 <= x2,
            0 <= x,
    ;
    vstd::arithmetic::div_mod::lemma_div_pos_is_pos(x2 * x, SCALE as int);
    assert(0 <= x3 * x) by (nonlinear_arith)
        requires
            0 <= x3,
            0 <= x,
    ;
    vstd::arithmetic::div_mod::lemma_div_pos_is_pos(x3 * x, SCALE as int);
    assert(0 <= x4 * x) by (nonlinear_arith)
        requires
            0 <= x4,
            0 <= x,
    ;
    vstd::arithmetic::div_mod::lemma_div_pos_is_pos(x4 * x, SCALE as int);
}

/// The dielectric's index ratio is positive and at most sixteen.
proof fn lemma_ratio_range(index: int)
    requires
        4096 <= index <= 16 * SCALE as int,
    ensures
        1 <= fdiv_s(SCALE as int, index) <= 16 * SCALE as int,
{
    assert(0 <= SCALE as int * SCALE) by (nonlinear_arith);
    vstd::arithmetic::div_mod::lemma_div_pos_is_pos(SCALE as int * SCALE, index);
    assert((SCALE as int) * SCALE <= (16 * SCALE as int) * index) by (nonlinear_arith)
        requires
            4096 <= index,
            SCALE == 65536,
    ;
    lemma_tdiv_range(SCALE as int * SCALE, (16 * SCALE as int) * index, index);
    lemma_tdiv_exact(16 * SCALE as int, index);
    assert(SCALE as int * SCALE >= index) by (nonlinear_arith)
        requires
            index <= 16 * SCALE as int,
            SCALE == 65536,
    ;
    vstd::arithmetic::div_mod::lemma_div_is_ordered(index, SCALE as int * SCALE, index);
    vstd::arithmetic::div_mod::lemma_div_by_multiple(1, index);
}

/// The reflection of a unit-range direction about a unit-range normal stays
/// within a small multiple of the unit scale.
proof fn lemma_reflect_dir_range(uv: V3, n: V3)
    requires
        in_range3(uv, 2 * SCALE as int),
        in_range3(n, 2 * SCALE as int),
    ensures
        in_range3(reflect_s(uv, n), 51 * SCALE as int),
{
    lemma_dot_fits_from_range(uv, n, 2 * SCALE as int, 2 * SCALE as int);
    lemma_tdiv_exact(4 * SCALE as int, SCALE as int);
    assert(2 * SCALE as int * (2 * SCALE as int) == 4 * SCALE as int * (SCALE as int))
        by (nonlinear_arith)
        requires
            SCALE == 65536,
    ;
    let d: int = dot_s(uv, n);
    lemma_fmul_range(2 * d, n.x, 24 * SCALE as int, 2 * SCALE as int);
    lemma_fmul_range(2 * d, n.y, 24 * SCALE as int, 2 * SCALE as int);
    lemma_fmul_range(2 * d, n.z, 24 * SCALE as int, 2 * SCALE as int);
    lemma_tdiv_exact(48 * SCALE as int, SCALE as int);
    assert(24 * SCALE as int * (2 * SCALE as int) == 48 * SCALE as int * (SCALE as int))
        by (nonlinear_arith)
        requires
            SCALE == 65536,
    ;
}

/// The largest attenuation a material can report on any draw: its albedo,
/// or white for a dielectric.
pub open spec fn att_cap_s(m: MaterialV) -> V3 {
    match m {
        MaterialV::Lambertian { albedo } => albedo,
        MaterialV::Metal { albedo, .. } => albedo,
        MaterialV::Dielectric { .. } => V3 {
            x: SCALE as int,
            y: SCALE as int,
            z: SCALE as int,
        },
    }
}

/// A valid material's attenuation cap is itself a color in the unit cube.
pub proof fn lemma_att_cap_ok(m: MaterialV)
    requires
        material_wf(m),
    ensures
        albedo_ok(att_cap_s(m)),
{
}

impl Material {
    /// Dispatch to the variant's scatter, passing each variant's contract
    /// through: whatever the variant, a scattered ray starts at the hit
    /// point with a color in the unit cube capped by the variant's albedo;
    /// diffuse and dielectric materials always scatter, and the variant
    /// clauses below restate what each scatter promises of its direction.
    pub fn scatter(&self, ray_in: &Ray, rec: &HitRecord) -> (r: Option<(Vec3, Ray)>)
        requires
            material_wf(self@),
            scatter_in_ok(ray_in@, *rec),
        ensures
            r matches Some((att, sc)) ==> albedo_ok(att@) && sc@.origin == rec.point@
                && in_range3(sc@.dir, 1858 * SCALE as int),
            r matches Some((att, sc)) ==> {
                &&& att@.x <= att_cap_s(self@).x
                &&& att@.y <= att_cap_s(self@).y
                &&& att@.z <= att_cap_s(self@).z
            },
            (self@ is Lambertian || self@ is Dielectric) ==> r is Some,
            self@ matches MaterialV::Lambertian { albedo } ==> (r matches Some((att, sc)) ==> {
                &&& att@ == albedo
                &&& (sc@.dir == rec.normal@ || (!near_zero_s(sc@.dir) && exists|u: V3|
                    in_range3(u, SCALE as int) && dot_s(u, u) < SCALE as int && sc@.dir
                        == vadd_s(rec.normal@, u)))
            }),
            self@ matches MaterialV::Metal { albedo, fuzz } ==> (r matches Some((att, sc)) ==> {
                &&& att@ == albedo
                &&& dot_s(sc@.dir, rec.normal@) > 0
                &&& exists|p: V3|
                    in_range3(p, SCALE as int) && dot_s(p, p) < SCALE as int && sc@.dir
                        == vadd_s(
                        reflect_s(norm_s(ray_in@.dir), rec.normal@),
                        scale_s(fuzz, p),
                    )
            }),
            self@ matches MaterialV::Metal { albedo, fuzz } ==> (fuzz == 0 ==> ((r is Some) == (
            dot_s(reflect_s(norm_s(ray_in@.dir), rec.normal@), rec.normal@) > 0))),
            self@ matches MaterialV::Metal { albedo, fuzz } ==> (fuzz == 0 ==> (r matches Some(
                (att, sc),
            ) ==> sc@.dir == reflect_s(norm_s(ray_in@.dir), rec.normal@))),
            self@ matches MaterialV::Dielectric { refr_index } ==> (r matches Some((att, sc))
                ==> {
                &&& att@ == (V3 { x: SCALE as int, y: SCALE as int, z: SCALE as int })
                &&& (sc@.dir == reflect_s(norm_s(ray_in@.dir), rec.normal@) || sc@.dir
                    == refract_s(
                    norm_s(ray_in@.dir),
                    rec.normal@,
                    refr_ratio_s(refr_index, rec.front_face),
                ))
                &&& (cannot_refract_s(
                    norm_s(ray_in@.dir),
                    rec.normal@,
                    refr_ratio_s(refr_index, rec.front_face),
                ) ==> sc@.dir == reflect_s(norm_s(ray_in@.dir), rec.normal@))
            }),
    {
        match self {
            Material::Lambertian(l) => l.scatter(ray_in, rec),
            Material::Metal(m) => m.scatter(ray_in, rec),
            Material::Dielectric(d) => d.scatter(ray_in, rec),
        }
    }
}

} // verus!
