//! The path integrator and the per-pixel sampler: the depth-limited
//! radiance estimate as a loop over bounces with an attenuation
//! accumulator, and the Monte Carlo accumulation with gamma correction.

use vstd::prelude::*;
use crate::vec::{Vec3, V3, dot_s, in_range3};
use crate::vec::{lemma_dot_fits_from_range};
use crate::fixed::{SCALE, fmul_s, fdiv_s, tdiv, sqrt_fx_s, fmul, fdiv, sqrt_fx};
use crate::fixed::{lemma_fmul_one, lemma_fmul_le_left, lemma_fmul_unit_interval,
    lemma_tdiv_range, lemma_tdiv_exact};
use crate::ray::{Ray, RayV, ray_ok, POS_LIM, DIR_LIM, T_LIM};
use crate::sphere::Sphere;
use crate::hittable::{Scene, scene_sel_s, lemma_scene_sel_nearest};
use crate::material::{albedo_ok, material_wf, att_cap_s, lemma_att_cap_ok};
use crate::camera::{Camera, CameraV, cam_wf, cam_ray_s};
use crate::rng::random_unit;

verus! {

/// Lower bound of every intersection query: suppresses self-intersection
/// of a ray reissued from a surface (about 0.001 in fixed point).
pub const SHADOW_EPS: i64 = 66;

/// Background gradient endpoints at the horizon: a warm color, reached as
/// the direction points down; straight up is pure white.
pub const HORIZON_R: i64 = 64256;

pub const HORIZON_G: i64 = 49408;

pub const HORIZON_B: i64 = 39680;

/// The interpolation weight of the background: the normalized direction's
/// vertical component mapped from `[-1, 1]` to `[0, 1]`, clamped.
pub open spec fn bg_t_s(dir: V3) -> int {
    let t0 = tdiv(crate::vec::norm_s(dir).y + SCALE, 2);
    if t0 < 0 {
        0
    } else if t0 > SCALE as int {
        SCALE as int
    } else {
        t0
    }
}

/// The background a missed ray returns: white at the top of the gradient,
/// the warm horizon color at the bottom.
pub open spec fn background_s(dir: V3) -> V3 {
    let t = bg_t_s(dir);
    V3 {
        x: t + fmul_s(SCALE as int - t, HORIZON_R as int),
        y: t + fmul_s(SCALE as int - t, HORIZON_G as int),
        z: t + fmul_s(SCALE as int - t, HORIZON_B as int),
    }
}

/// The attenuation cap of the first object a ray's scan selects: that
/// material's albedo (white for a dielectric), or white when nothing is
/// selected.
pub open spec fn first_hit_cap_s(scene: Scene, ray: RayV) -> V3 {
    match scene_sel_s(scene.objects@, ray, SHADOW_EPS as int, T_LIM as int) {
        Option::Some(sel) => att_cap_s(scene.materials@[scene.objects@[sel.idx].mat as int]@),
        Option::None => V3 { x: SCALE as int, y: SCALE as int, z: SCALE as int },
    }
}

/// The background gradient for a usable direction; every channel lands in
/// the unit interval.
pub fn background(dir: Vec3) -> (r: Vec3)
    requires
        in_range3(dir@, DIR_LIM as int),
        1 <= dot_s(dir@, dir@),
    ensures
        r@ == background_s(dir@),
        albedo_ok(r@),
{
    proof {
        lemma_dot_fits_from_range(dir@, dir@, DIR_LIM as int, DIR_LIM as int);
    }
    let un = dir.norm();
    let t0: i64 = (un.y + SCALE) / 2;
    let t: i64 = if t0 < 0 {
        0
    } else if t0 > SCALE {
        SCALE
    } else {
        t0
    };
    proof {
        lemma_fmul_le_left(SCALE as int - t as int, HORIZON_R as int);
        lemma_fmul_le_left(SCALE as int - t as int, HORIZON_G as int);
        lemma_fmul_le_left(SCALE as int - t as int, HORIZON_B as int);
    }
    Vec3 {
        x: t + fmul(SCALE - t, HORIZON_R),
        y: t + fmul(SCALE - t, HORIZON_G),
        z: t + fmul(SCALE - t, HORIZON_B),
    }
}

/// Whether the tracer can follow this ray: bounded components and a
/// direction of positive squared length.
fn ray_usable(r: &Ray) -> (b: bool)
    ensures
        b == ray_ok(r@),
{
    let o = r.origin;
    let dd = r.dir;
    if o.x < -POS_LIM || o.x > POS_LIM || o.y < -POS_LIM || o.y > POS_LIM || o.z < -POS_LIM
        || o.z > POS_LIM || dd.x < -DIR_LIM || dd.x > DIR_LIM || dd.y < -DIR_LIM || dd.y > DIR_LIM
        || dd.z < -DIR_LIM || dd.z > DIR_LIM {
        return false;
    }
    proof {
        lemma_dot_fits_from_range(dd@, dd@, DIR_LIM as int, DIR_LIM as int);
    }
    let q: i64 = dd.dot(dd);
    q >= 1
}

/// The recursive radiance estimate, written as a loop over bounces with a
/// running attenuation product. A zero depth is black; an out-of-range or
/// degenerate ray is black; a ray that misses everything returns exactly
/// the background; an absorbed path is black; and whenever the scan
/// selects an object, each channel is capped by that first material's
/// attenuation, whatever the random draws did. Every channel of the result
/// lies in the unit interval.
pub fn ray_color(ray: &Ray, scene: &Scene, depth: u32) -> (r: Vec3)
    requires
        scene.wf(),
    ensures
        albedo_ok(r@),
        depth == 0 ==> r@ == (V3 { x: 0, y: 0, z: 0 }),
        (depth > 0 && !ray_ok(ray@)) ==> r@ == (V3 { x: 0, y: 0, z: 0 }),
        (depth > 0 && ray_ok(ray@) && scene_sel_s(
            scene.objects@,
            ray@,
            SHADOW_EPS as int,
            T_LIM as int,
        ) is None) ==> r@ == background_s(ray@.dir),
        (depth > 0 && ray_ok(ray@) && scene_sel_s(
            scene.objects@,
            ray@,
            SHADOW_EPS as int,
            T_LIM as int,
        ) is Some) ==> {
            &&& r@.x <= first_hit_cap_s(*scene, ray@).x
            &&& r@.y <= first_hit_cap_s(*scene, ray@).y
            &&& r@.z <= first_hit_cap_s(*scene, ray@).z
        },
{
    proof {
        if depth > 0 && ray_ok(ray@) {
            lemma_scene_sel_nearest(scene.objects@, ray@, SHADOW_EPS as int, T_LIM as int);
            match scene_sel_s(scene.objects@, ray@, SHADOW_EPS as int, T_LIM as int) {
                Option::Some(sel) => {
                    assert(material_wf(
                        scene.materials@[scene.objects@[sel.idx].mat as int]@,
                    ));
                    lemma_att_cap_ok(scene.materials@[scene.objects@[sel.idx].mat as int]@);
                },
                Option::None => {},
            }
        }
    }
    let mut cur: Ray = *ray;
    let mut atten: Vec3 = Vec3::new(SCALE, SCALE, SCALE);
    let mut d: u32 = depth;
    while d > 0
        invariant
            scene.wf(),
            albedo_ok(atten@),
            d <= depth,
            (depth > 0 && ray_ok(ray@) && scene_sel_s(
                scene.objects@,
                ray@,
                SHADOW_EPS as int,
                T_LIM as int,
            ) is None) ==> (d == depth && cur == *ray && atten@ == (V3 {
                x: SCALE as int,
                y: SCALE as int,
                z: SCALE as int,
            })),
            (depth > 0 && !ray_ok(ray@)) ==> (d == depth && cur == *ray),
            (depth > 0 && ray_ok(ray@) && scene_sel_s(
                scene.objects@,
                ray@,
                SHADOW_EPS as int,
                T_LIM as int,
            ) is Some) ==> albedo_ok(first_hit_cap_s(*scene, ray@)),
            (depth > 0 && ray_ok(ray@) && scene_sel_s(
                scene.objects@,
                ray@,
                SHADOW_EPS as int,
                T_LIM as int,
            ) is Some) ==> {
                ||| (d == depth && cur == *ray && atten@ == (V3 {
                    x: SCALE as int,
                    y: SCALE as int,
                    z: SCALE as int,
                }))
                ||| (atten@.x <= first_hit_cap_s(*scene, ray@).x && atten@.y <= first_hit_cap_s(
                    *scene,
                    ray@,
                ).y && atten@.z <= first_hit_cap_s(*scene, ray@).z)
            },
        decreases d,
    {
        if !ray_usable(&cur) {
            return Vec3::new(0, 0, 0);
        }
        let hit = scene.hit(&cur, SHADOW_EPS, T_LIM);
        match hit {
            None => {
                let bg = background(cur.dir);
                proof {
                    lemma_fmul_unit_interval(atten@.x, bg@.x);
                    lemma_fmul_unit_interval(atten@.y, bg@.y);
                    lemma_fmul_unit_interval(atten@.z, bg@.z);
                    lemma_fmul_one(bg@.x);
                    lemma_fmul_one(bg@.y);
                    lemma_fmul_one(bg@.z);
                    lemma_fmul_le_left(atten@.x, bg@.x);
                    lemma_fmul_le_left(atten@.y, bg@.y);
                    lemma_fmul_le_left(atten@.z, bg@.z);
                }
                return Vec3 {
                    x: fmul(atten.x, bg.x),
                    y: fmul(atten.y, bg.y),
                    z: fmul(atten.z, bg.z),
                };
            },
            Some(rec) => {
                let m = &scene.materials[rec.mat];
                match m.scatter(&cur, &rec) {
                    Some((att2, sc)) => {
                        proof {
                            lemma_fmul_unit_interval(atten@.x, att2@.x);
                            lemma_fmul_unit_interval(atten@.y, att2@.y);
                            lemma_fmul_unit_interval(atten@.z, att2@.z);
                            lemma_fmul_one(att2@.x);
                            lemma_fmul_one(att2@.y);
                            lemma_fmul_one(att2@.z);
                            lemma_fmul_le_left(atten@.x, att2@.x);
                            lemma_fmul_le_left(atten@.y, att2@.y);
                            lemma_fmul_le_left(atten@.z, att2@.z);
                        }
                        atten = Vec3 {
                            x: fmul(atten.x, att2.x),
                            y: fmul(atten.y, att2.y),
                            z: fmul(atten.z, att2.z),
                        };
                        cur = sc;
                    },
                    None => {
                        return Vec3::new(0, 0, 0);
                    },
                }
            },
        }
        d = d - 1;
    }
    Vec3::new(0, 0, 0)
}

/// Gamma-2 correction and quantization of one channel: average the sum
/// over the sample count, take the square root, clamp just below one, and
/// truncate to a byte.
pub open spec fn gamma_byte_s(sum: int, n: int) -> int {
    let avg = sum / n;
    let g = sqrt_fx_s(avg);
    let cl = if g > 65470 {
        65470
    } else {
        g
    };
    cl / 256
}

pub fn color_to_byte(sum: i64, n: u32) -> (b: u8)
    requires
        1 <= n,
        0 <= sum <= 0x1_0000_0000_0000,
    ensures
        b as int == gamma_byte_s(sum as int, n as int),
{
    proof {
        vstd::arithmetic::div_mod::lemma_div_pos_is_pos(sum as int, n as int);
        vstd::arithmetic::div_mod::lemma_div_is_ordered(sum as int, 0x1_0000_0000_0000, n as int);
        vstd::arithmetic::div_mod::lemma_div_is_ordered_by_denominator(
            0x1_0000_0000_0000,
            1,
            n as int,
        );
        vstd::arithmetic::div_mod::lemma_fundamental_div_mod(0x1_0000_0000_0000, 1);
        vstd::arithmetic::div_mod::lemma_mod_bound(0x1_0000_0000_0000, 1);
    }
    let avg: i64 = sum / (n as i64);
    let g: i64 = sqrt_fx(avg);
    let cl: i64 = if g > 65470 {
        65470
    } else {
        g
    };
    (cl / 256) as u8
}

/// What the integrator's contract leaves knowable of one sample's radiance,
/// given the primary ray it was traced along.
pub open spec fn sample_ok(c: V3, ray: RayV, objs: Seq<Sphere>, depth: int) -> bool {
    &&& albedo_ok(c)
    &&& (depth == 0 ==> c == (V3 { x: 0, y: 0, z: 0 }))
    &&& ((depth > 0 && !ray_ok(ray)) ==> c == (V3 { x: 0, y: 0, z: 0 }))
    &&& ((depth > 0 && ray_ok(ray) && scene_sel_s(
        objs,
        ray,
        SHADOW_EPS as int,
        T_LIM as int,
    ) is None) ==> c == background_s(ray.dir))
}

/// A jittered normalized image-plane coordinate: `(idx + xi) / (extent - 1)`
/// in fixed point.
pub open spec fn sample_coord_s(idx: int, extent: int, xi: int) -> int {
    fdiv_s(idx * (SCALE as int) + xi, (extent - 1) * (SCALE as int))
}

/// One recorded sample is accounted for: some jitter pair and lens-disk
/// draw give a primary ray of this pixel whose integrator contract the
/// sample obeys.
pub open spec fn pixel_sample_at_ok(
    c: V3,
    cam: CameraV,
    objs: Seq<Sphere>,
    row: int,
    col: int,
    width: int,
    height: int,
    depth: int,
) -> bool {
    exists|xu: int, xv: int, dk: V3|
        {
            &&& 0 <= xu < SCALE as int
            &&& 0 <= xv < SCALE as int
            &&& in_range3(dk, SCALE as int)
            &&& dot_s(dk, dk) < SCALE as int
            &&& dk.z == 0
            &&& #[trigger] sample_ok(
                c,
                cam_ray_s(
                    cam,
                    sample_coord_s(col, width, xu),
                    sample_coord_s(row, height, xv),
                    dk,
                ),
                objs,
                depth,
            )
        }
}

/// Every recorded sample of a pixel came from one of its own primary rays.
pub open spec fn pixel_samples_ok(
    cols: Seq<V3>,
    cam: CameraV,
    objs: Seq<Sphere>,
    row: int,
    col: int,
    width: int,
    height: int,
    depth: int,
) -> bool {
    forall|i: int|
        0 <= i < cols.len() ==> pixel_sample_at_ok(
            #[trigger] cols[i],
            cam,
            objs,
            row,
            col,
            width,
            height,
            depth,
        )
}

/// Channel totals of a sample sequence.
pub open spec fn sum_x(cols: Seq<V3>) -> int
    decreases cols.len(),
{
    if cols.len() == 0 {
        0
    } else {
        sum_x(cols.drop_last()) + cols.last().x
    }
}

pub open spec fn sum_y(cols: Seq<V3>) -> int
    decreases cols.len(),
{
    if cols.len() == 0 {
        0
    } else {
        sum_y(cols.drop_last()) + cols.last().y
    }
}

pub open spec fn sum_z(cols: Seq<V3>) -> int
    decreases cols.len(),
{
    if cols.len() == 0 {
        0
    } else {
        sum_z(cols.drop_last()) + cols.last().z
    }
}

/// A finished pixel: there is a sequence of per-sample radiances, one per
/// sample, each tied to a primary ray of this pixel by the integrator's
/// contract, whose channel totals the output bytes gamma-quantize.
pub open spec fn pixel_result_ok(
    px: (u8, u8, u8),
    cam: CameraV,
    objs: Seq<Sphere>,
    row: int,
    col: int,
    width: int,
    height: int,
    samples: int,
    depth: int,
) -> bool {
    exists|cols: Seq<V3>|
        {
            &&& cols.len() == samples
            &&& pixel_samples_ok(cols, cam, objs, row, col, width, height, depth)
            &&& px.0 as int == gamma_byte_s(sum_x(cols), samples)
            &&& px.1 as int == gamma_byte_s(sum_y(cols), samples)
            &&& px.2 as int == gamma_byte_s(sum_z(cols), samples)
        }
}

/// A normalized sample coordinate `(j + xi) / (w - 1)` stays within twice
/// the unit scale.
proof fn lemma_sample_coord(j: int, w: int, xi: int)
    requires
        0 <= j < w,
        2 <= w <= 0x10000,
        0 <= xi < SCALE as int,
    ensures
        1 <= (w - 1) * (SCALE as int),
        0 <= fdiv_s(j * (SCALE as int) + xi, (w - 1) * (SCALE as int)) <= 2 * SCALE as int,
{
    let nu = j * (SCALE as int) + xi;
    let du = (w - 1) * (SCALE as int);
    assert(1 <= du && 0 <= nu && nu * SCALE <= (2 * SCALE as int) * du) by (nonlinear_arith)
        requires
            0 <= j < w,
            2 <= w <= 0x10000,
            0 <= xi < SCALE as int,
            nu == j * (SCALE as int) + xi,
            du == (w - 1) * (SCALE as int),
            SCALE == 65536,
    ;
    assert(-((2 * SCALE as int) * du) <= nu * SCALE) by (nonlinear_arith)
        requires
            0 <= nu * SCALE,
            0 <= (2 * SCALE as int) * du,
    ;
    lemma_tdiv_range(nu * SCALE, (2 * SCALE as int) * du, du);
    lemma_tdiv_exact(2 * SCALE as int, du);
    vstd::arithmetic::div_mod::lemma_div_pos_is_pos(nu * SCALE, du);
}

/// One pixel's full sample loop: `samples` jittered primary rays, their
/// radiance summed and pushed through `color_to_byte` per channel.
pub fn render_pixel(
    scene: &Scene,
    camera: &Camera,
    row: u32,
    col: u32,
    width: u32,
    height: u32,
    samples: u32,
    depth: u32,
) -> (r: (u8, u8, u8))
    requires
        scene.wf(),
        cam_wf(camera@),
        2 <= width <= 0x10000,
        2 <= height <= 0x10000,
        1 <= samples <= 0x10000,
        col < width,
        row < height,
    ensures
        pixel_result_ok(
            r,
            camera@,
            scene.objects@,
            row as int,
            col as int,
            width as int,
            height as int,
            samples as int,
            depth as int,
        ),
{
    let mut sr: i64 = 0;
    let mut sg: i64 = 0;
    let mut sb: i64 = 0;
    let mut s: u32 = 0;
    let ghost mut cols: Seq<V3> = Seq::empty();
    while s < samples
        invariant
            scene.wf(),
            cam_wf(camera@),
            2 <= width <= 0x10000,
            2 <= height <= 0x10000,
            1 <= samples <= 0x10000,
            col < width,
            row < height,
            s <= samples,
            0 <= sr <= s as int * SCALE as int,
            0 <= sg <= s as int * SCALE as int,
            0 <= sb <= s as int * SCALE as int,
            cols.len() == s as int,
            sr as int == sum_x(cols),
            sg as int == sum_y(cols),
            sb as int == sum_z(cols),
            pixel_samples_ok(
                cols,
                camera@,
                scene.objects@,
                row as int,
                col as int,
                width as int,
                height as int,
                depth as int,
            ),
        decreases samples - s,
    {
        let xi_u: i64 = random_unit();
        let xi_v: i64 = random_unit();
        proof {
            lemma_sample_coord(col as int, width as int, xi_u as int);
            lemma_sample_coord(row as int, height as int, xi_v as int);
        }
        let u: i64 = fdiv((col as i64) * SCALE + xi_u, ((width - 1) as i64) * SCALE);
        let v: i64 = fdiv((row as i64) * SCALE + xi_v, ((height - 1) as i64) * SCALE);
        let cray = camera.get_ray(u, v);
        let cvec = ray_color(&cray, scene, depth);
        proof {
            let dk = choose|dk: V3|
                in_range3(dk, SCALE as int) && dot_s(dk, dk) < SCALE as int && dk.z == 0 && cray@
                    == cam_ray_s(camera@, u as int, v as int, dk);
            let newcols = cols.push(cvec@);
            assert(newcols.drop_last() =~= cols);
            assert(newcols.last() == cvec@);
            assert(sample_ok(
                cvec@,
                cam_ray_s(
                    camera@,
                    sample_coord_s(col as int, width as int, xi_u as int),
                    sample_coord_s(row as int, height as int, xi_v as int),
                    dk,
                ),
                scene.objects@,
                depth as int,
            ));
            assert(pixel_sample_at_ok(
                cvec@,
                camera@,
                scene.objects@,
                row as int,
                col as int,
                width as int,
                height as int,
                depth as int,
            ));
            assert forall|i: int| 0 <= i < newcols.len() implies pixel_sample_at_ok(
                #[trigger] newcols[i],
                camera@,
                scene.objects@,
                row as int,
                col as int,
                width as int,
                height as int,
                depth as int,
            ) by {
                if i < cols.len() {
                    assert(pixel_sample_at_ok(
                        cols[i],
                        camera@,
                        scene.objects@,
                        row as int,
                        col as int,
                        width as int,
                        height as int,
                        depth as int,
                    ));
                    assert(newcols[i] == cols[i]);
                } else {
                    assert(newcols[i] == cvec@);
                }
            };
            cols = newcols;
        }
        sr = sr + cvec.x;
        sg = sg + cvec.y;
        sb = sb + cvec.z;
        s = s + 1;
    }
    let r0 = color_to_byte(sr, samples);
    let r1 = color_to_byte(sg, samples);
    let r2 = color_to_byte(sb, samples);
    proof {
        assert(cols.len() == samples as int && pixel_samples_ok(
            cols,
            camera@,
            scene.objects@,
            row as int,
            col as int,
            width as int,
            height as int,
            depth as int,
        ) && (r0, r1, r2).0 as int == gamma_byte_s(sum_x(cols), samples as int) && (r0, r1, r2).1
            as int == gamma_byte_s(sum_y(cols), samples as int) && (r0, r1, r2).2 as int
            == gamma_byte_s(sum_z(cols), samples as int));
    }
    (r0, r1, r2)
}

/// One scanline, left to right: the row-major order the output expects is
/// the order of the returned vector, and each element satisfies the
/// per-pixel contract for its own column.
pub fn render_row(
    scene: &Scene,
    camera: &Camera,
    row: u32,
    width: u32,
    height: u32,
    samples: u32,
    depth: u32,
) -> (r: Vec<(u8, u8, u8)>)
    requires
        scene.wf(),
        cam_wf(camera@),
        2 <= width <= 0x10000,
        2 <= height <= 0x10000,
        1 <= samples <= 0x10000,
        row < height,
    ensures
        r@.len() == width as int,
        forall|jj: int|
            0 <= jj < width as int ==> pixel_result_ok(
                #[trigger] r@[jj],
                camera@,
                scene.objects@,
                row as int,
                jj,
                width as int,
                height as int,
                samples as int,
                depth as int,
            ),
{
    let mut out: Vec<(u8, u8, u8)> = Vec::new();
    let mut j: u32 = 0;
    while j < width
        invariant
            scene.wf(),
            cam_wf(camera@),
            2 <= width <= 0x10000,
            2 <= height <= 0x10000,
            1 <= samples <= 0x10000,
            row < height,
            j <= width,
            out@.len() == j as int,
            forall|jj: int|
                0 <= jj < j as int ==> pixel_result_ok(
                    #[trigger] out@[jj],
                    camera@,
                    scene.objects@,
                    row as int,
                    jj,
                    width as int,
                    height as int,
                    samples as int,
                    depth as int,
                ),
        decreases width - j,
    {
        let px = render_pixel(scene, camera, row, j, width, height, samples, depth);
        out.push(px);
        j = j + 1;
    }
    out
}

} // verus!
