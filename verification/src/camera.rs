//! The thin-lens camera: an orthonormal basis and viewport extents derived
//! once, then a primary ray per normalized image-plane coordinate with
//! depth-of-field jitter from the lens disk.

use vstd::prelude::*;
use crate::vec::{Vec3, V3, vadd_s, vsub_s, scale_s, divk_s, cross_s, norm_s, dot_s, in_range3,
    dot_fits, cross_fits};
use crate::vec::{lemma_dot_fits_from_range, lemma_cross_fits_from_range, lemma_scale_range,
    lemma_norm_bound};
use crate::fixed::{SCALE, fmul_s, fdiv_s, tdiv, fmul};
use crate::fixed::{lemma_fmul_range, lemma_tdiv_exact, lemma_tdiv_range};
use crate::ray::{Ray, RayV, POS_LIM};

verus! {

pub ghost struct CameraV {
    pub origin: V3,
    pub hor_dir: V3,
    pub ver_dir: V3,
    pub lower_left_corner: V3,
    pub cu: V3,
    pub cv: V3,
    pub lens_radius: int,
}

pub struct Camera {
    pub origin: Vec3,
    pub hor_dir: Vec3,
    pub ver_dir: Vec3,
    pub lower_left_corner: Vec3,
    pub cu: Vec3,
    pub cv: Vec3,
    pub lens_radius: i64,
}

impl View for Camera {
    type V = CameraV;

    open spec fn view(&self) -> CameraV {
        CameraV {
            origin: self.origin@,
            hor_dir: self.hor_dir@,
            ver_dir: self.ver_dir@,
            lower_left_corner: self.lower_left_corner@,
            cu: self.cu@,
            cv: self.cv@,
            lens_radius: self.lens_radius as int,
        }
    }
}

/// The camera a derivation from valid parameters produces: bounded basis
/// vectors, viewport extents and lens radius.
pub open spec fn cam_wf(c: CameraV) -> bool {
    &&& in_range3(c.origin, POS_LIM as int)
    &&& in_range3(c.cu, 2 * SCALE as int)
    &&& in_range3(c.cv, 8 * SCALE as int)
    &&& in_range3(c.hor_dir, 0x4_0000_0000)
    &&& in_range3(c.ver_dir, 0x4_0000_0000)
    &&& in_range3(c.lower_left_corner, 0x10_0000_0000)
    &&& 0 <= c.lens_radius <= 8 * SCALE as int
}

/// Spec mirror of the camera derivation.
pub open spec fn camera_mk_s(
    look_from: V3,
    look_at: V3,
    vup: V3,
    tan_half_vfov: int,
    aspect_ratio: int,
    aperture: int,
    focus_dist: int,
) -> CameraV {
    let vh = 2 * tan_half_vfov;
    let vw = fmul_s(aspect_ratio, vh);
    let cw = norm_s(vsub_s(look_from, look_at));
    let cu = norm_s(cross_s(vup, cw));
    let cv = cross_s(cw, cu);
    let hor = scale_s(fmul_s(focus_dist, vw), cu);
    let ver = scale_s(fmul_s(focus_dist, vh), cv);
    let llc = vsub_s(
        vsub_s(vsub_s(look_from, divk_s(hor, 2 * SCALE as int)), divk_s(ver, 2 * SCALE as int)),
        scale_s(focus_dist, cw),
    );
    CameraV {
        origin: look_from,
        hor_dir: hor,
        ver_dir: ver,
        lower_left_corner: llc,
        cu: cu,
        cv: cv,
        lens_radius: tdiv(aperture, 2),
    }
}

/// The primary ray for image-plane coordinates `(u, v)` and a lens-disk
/// sample `d`.
pub open spec fn cam_ray_s(c: CameraV, u: int, v: int, d: V3) -> RayV {
    let rd = scale_s(c.lens_radius, d);
    let off = vadd_s(scale_s(rd.x, c.cu), scale_s(rd.y, c.cv));
    RayV {
        origin: vadd_s(c.origin, off),
        dir: vsub_s(
            vsub_s(
                vadd_s(
                    vadd_s(c.lower_left_corner, scale_s(u, c.hor_dir)),
                    scale_s(v, c.ver_dir),
                ),
                c.origin,
            ),
            off,
        ),
    }
}

impl Camera {
    /// Derive the camera from look-from/look-at/up, the tangent of half the
    /// vertical field of view, the aspect ratio, the aperture and the focus
    /// distance. The two normalizations oblige the caller to keep the view
    /// direction and the up vector non-degenerate.
    pub fn new(
        look_from: Vec3,
        look_at: Vec3,
        vup: Vec3,
        tan_half_vfov: i64,
        aspect_ratio: i64,
        aperture: i64,
        focus_dist: i64,
    ) -> (r: Camera)
        requires
            in_range3(look_from@, POS_LIM as int),
            in_range3(look_at@, POS_LIM as int),
            in_range3(vup@, 16 * SCALE as int),
            0 < tan_half_vfov <= 16 * SCALE as int,
            0 < aspect_ratio <= 16 * SCALE as int,
            0 <= aperture <= 16 * SCALE as int,
            0 < focus_dist <= 256 * SCALE as int,
            1 <= dot_s(vsub_s(look_from@, look_at@), vsub_s(look_from@, look_at@)),
            1 <= dot_s(
                cross_s(vup@, norm_s(vsub_s(look_from@, look_at@))),
                cross_s(vup@, norm_s(vsub_s(look_from@, look_at@))),
            ),
        ensures
            r@ == camera_mk_s(
                look_from@,
                look_at@,
                vup@,
                tan_half_vfov as int,
                aspect_ratio as int,
                aperture as int,
                focus_dist as int,
            ),
            cam_wf(r@),
    {
        let vh: i64 = 2 * tan_half_vfov;
        proof {
            lemma_fmul_range(aspect_ratio as int, vh as int, 16 * SCALE as int, 32 * SCALE as int);
            lemma_tdiv_exact(512 * SCALE as int, SCALE as int);
            assert(16 * SCALE as int * (32 * SCALE as int) == 512 * SCALE as int * (SCALE as int))
                by (nonlinear_arith)
                requires
                    SCALE == 65536,
            ;
        }
        let vw: i64 = fmul(aspect_ratio, vh);
        proof {
            lemma_dot_fits_from_range(
                vsub_s(look_from@, look_at@),
                vsub_s(look_from@, look_at@),
                0x1000_0000,
                0x1000_0000,
            );
        }
        let cw: Vec3 = look_from.sub(look_at).norm();
        proof {
            lemma_cross_fits_from_range(vup@, cw@, 16 * SCALE as int, 2 * SCALE as int);
            lemma_tdiv_exact(32 * SCALE as int, SCALE as int);
            assert(16 * SCALE as int * (2 * SCALE as int) == 32 * SCALE as int * (SCALE as int))
                by (nonlinear_arith)
                requires
                    SCALE == 65536,
            ;
            lemma_dot_fits_from_range(
                cross_s(vup@, cw@),
                cross_s(vup@, cw@),
                64 * SCALE as int,
                64 * SCALE as int,
            );
        }
        let cu: Vec3 = vup.cross(cw).norm();
        proof {
            lemma_cross_fits_from_range(cw@, cu@, 2 * SCALE as int, 2 * SCALE as int);
            lemma_tdiv_exact(4 * SCALE as int, SCALE as int);
            assert(2 * SCALE as int * (2 * SCALE as int) == 4 * SCALE as int * (SCALE as int))
                by (nonlinear_arith)
                requires
                    SCALE == 65536,
            ;
        }
        let cv: Vec3 = cw.cross(cu);
        proof {
            lemma_fmul_range(
                focus_dist as int,
                vw as int,
                256 * SCALE as int,
                512 * SCALE as int,
            );
            lemma_tdiv_exact(131072 * SCALE as int, SCALE as int);
            assert(256 * SCALE as int * (512 * SCALE as int) == 131072 * SCALE as int * (
            SCALE as int)) by (nonlinear_arith)
                requires
                    SCALE == 65536,
            ;
            lemma_scale_range(
                fmul_s(focus_dist as int, vw as int),
                cu@,
                131072 * SCALE as int,
                2 * SCALE as int,
            );
            lemma_tdiv_exact(262144 * SCALE as int, SCALE as int);
            assert(131072 * SCALE as int * (2 * SCALE as int) == 262144 * SCALE as int * (
            SCALE as int)) by (nonlinear_arith)
                requires
                    SCALE == 65536,
            ;
        }
        let hor: Vec3 = cu.mul(fmul(focus_dist, vw));
        proof {
            lemma_fmul_range(focus_dist as int, vh as int, 256 * SCALE as int, 32 * SCALE as int);
            lemma_tdiv_exact(8192 * SCALE as int, SCALE as int);
            assert(256 * SCALE as int * (32 * SCALE as int) == 8192 * SCALE as int * (
            SCALE as int)) by (nonlinear_arith)
                requires
                    SCALE == 65536,
            ;
            lemma_scale_range(
                fmul_s(focus_dist as int, vh as int),
                cv@,
                8192 * SCALE as int,
                8 * SCALE as int,
            );
            lemma_tdiv_exact(65536 * SCALE as int, SCALE as int);
            assert(8192 * SCALE as int * (8 * SCALE as int) == 65536 * SCALE as int * (
            SCALE as int)) by (nonlinear_arith)
                requires
                    SCALE == 65536,
            ;
        }
        let ver: Vec3 = cv.mul(fmul(focus_dist, vh));
        proof {
            lemma_half_range(hor@, 0x4_0000_0000);
            lemma_half_range(ver@, 0x4_0000_0000);
            lemma_scale_range(focus_dist as int, cw@, 256 * SCALE as int, 2 * SCALE as int);
            lemma_tdiv_exact(512 * SCALE as int, SCALE as int);
            assert(256 * SCALE as int * (2 * SCALE as int) == 512 * SCALE as int * (SCALE as int))
                by (nonlinear_arith)
                requires
                    SCALE == 65536,
            ;
        }
        let llc: Vec3 = look_from.sub(hor.div(2 * SCALE)).sub(ver.div(2 * SCALE)).sub(
            cw.mul(focus_dist),
        );
        Camera {
            origin: look_from,
            hor_dir: hor,
            ver_dir: ver,
            lower_left_corner: llc,
            cu,
            cv,
            lens_radius: aperture / 2,
        }
    }

    /// A primary ray through image-plane coordinates `(u, v)`, its origin
    /// jittered within the lens disk.
    pub fn get_ray(&self, u: i64, v: i64) -> (r: Ray)
        requires
            cam_wf(self@),
            0 <= u <= 2 * SCALE as int,
            0 <= v <= 2 * SCALE as int,
        ensures
            exists|d: V3|
                in_range3(d, SCALE as int) && dot_s(d, d) < SCALE as int && d.z == 0 && r@
                    == cam_ray_s(self@, u as int, v as int, d),
    {
        let disk = Vec3::get_random_in_unit_disk();
        proof {
            lemma_scale_range(self@.lens_radius, disk@, 8 * SCALE as int, SCALE as int);
            lemma_tdiv_exact(8 * SCALE as int, SCALE as int);
            assert(8 * SCALE as int * (SCALE as int) == 8 * SCALE as int * (SCALE as int));
        }
        let rd = disk.mul(self.lens_radius);
        proof {
            lemma_scale_range(rd@.x, self@.cu, 8 * SCALE as int, 2 * SCALE as int);
            lemma_tdiv_exact(16 * SCALE as int, SCALE as int);
            assert(8 * SCALE as int * (2 * SCALE as int) == 16 * SCALE as int * (SCALE as int))
                by (nonlinear_arith)
                requires
                    SCALE == 65536,
            ;
            lemma_scale_range(rd@.y, self@.cv, 8 * SCALE as int, 8 * SCALE as int);
            lemma_tdiv_exact(64 * SCALE as int, SCALE as int);
            assert(8 * SCALE as int * (8 * SCALE as int) == 64 * SCALE as int * (SCALE as int))
                by (nonlinear_arith)
                requires
                    SCALE == 65536,
            ;
        }
        let off = self.cu.mul(rd.x).add(self.cv.mul(rd.y));
        proof {
            lemma_scale_range(u as int, self@.hor_dir, 2 * SCALE as int, 0x4_0000_0000);
            lemma_scale_range(v as int, self@.ver_dir, 2 * SCALE as int, 0x4_0000_0000);
            lemma_tdiv_exact(0x8_0000_0000, SCALE as int);
            assert(2 * SCALE as int * 0x4_0000_0000 == 0x8_0000_0000 * (SCALE as int))
                by (nonlinear_arith)
                requires
                    SCALE == 65536,
            ;
        }
        let origin2 = self.origin.add(off);
        let dir = self.lower_left_corner.add(self.hor_dir.mul(u)).add(self.ver_dir.mul(v)).sub(
            self.origin,
        ).sub(off);
        let r = Ray::new(origin2, dir);
        proof {
            assert(in_range3(disk@, SCALE as int) && dot_s(disk@, disk@) < SCALE as int
                && disk@.z == 0 && r@ == cam_ray_s(self@, u as int, v as int, disk@));
        }
        r
    }
}

/// Halving a bounded vector keeps the bound.
proof fn lemma_half_range(v: V3, c: int)
    requires
        in_range3(v, c),
        0 <= c <= 0x100_0000_0000,
    ensures
        in_range3(divk_s(v, 2 * SCALE as int), c),
{
    lemma_half_comp(v.x, c);
    lemma_half_comp(v.y, c);
    lemma_half_comp(v.z, c);
}

proof fn lemma_half_comp(x: int, c: int)
    requires
        -c <= x <= c,
        0 <= c <= 0x100_0000_0000,
    ensures
        -c <= fdiv_s(x, 2 * SCALE as int) <= c,
{
    assert(-(c * (2 * SCALE as int)) <= x * SCALE <= c * (2 * SCALE as int)) by (nonlinear_arith)
        requires
            -c <= x <= c,
            SCALE == 65536,
    ;
    lemma_tdiv_range(x * SCALE, c * (2 * SCALE as int), 2 * SCALE as int);
    lemma_tdiv_exact(c, 2 * SCALE as int);
    assert(c * (2 * SCALE as int) == c * (2 * SCALE as int));
}


/// Whether camera parameters give usable basis vectors: the view direction
/// and the up vector must not be degenerate. Callers of `Camera::new`
/// check this first.
pub fn camera_dirs_ok(look_from: Vec3, look_at: Vec3, vup: Vec3) -> (b: bool)
    requires
        in_range3(look_from@, POS_LIM as int),
        in_range3(look_at@, POS_LIM as int),
        in_range3(vup@, 16 * SCALE as int),
    ensures
        b == (1 <= dot_s(vsub_s(look_from@, look_at@), vsub_s(look_from@, look_at@)) && 1
            <= dot_s(
            cross_s(vup@, norm_s(vsub_s(look_from@, look_at@))),
            cross_s(vup@, norm_s(vsub_s(look_from@, look_at@))),
        )),
{
    let w = look_from.sub(look_at);
    proof {
        lemma_dot_fits_from_range(w@, w@, 0x1000_0000, 0x1000_0000);
    }
    let d: i64 = w.dot(w);
    if d < 1 {
        return false;
    }
    let cw = w.norm();
    proof {
        lemma_cross_fits_from_range(vup@, cw@, 16 * SCALE as int, 2 * SCALE as int);
        lemma_tdiv_exact(32 * SCALE as int, SCALE as int);
        assert(16 * SCALE as int * (2 * SCALE as int) == 32 * SCALE as int * (SCALE as int))
            by (nonlinear_arith)
            requires
                SCALE == 65536,
        ;
        lemma_dot_fits_from_range(
            cross_s(vup@, cw@),
            cross_s(vup@, cw@),
            64 * SCALE as int,
            64 * SCALE as int,
        );
    }
    let c = vup.cross(cw);
    let cd: i64 = c.dot(c);
    cd >= 1
}

} // verus!
