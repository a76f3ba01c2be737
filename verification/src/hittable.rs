//! The intersection protocol: the record a hit produces, and the scene that
//! scans an ordered list of objects for the nearest hit.

use vstd::prelude::*;
use crate::vec::{Vec3, in_range3};
use crate::ray::{Ray, RayV, at_s, ray_ok, POS_LIM, T_LIM};
use crate::sphere::{Sphere, sphere_wf, sphere_hits_s, sel_root_s, t_in, front_face_s, RADIUS_MIN,
    hit_normal_s, quad_a_s, lemma_sphere_range_mono, lemma_sphere_self_not_closer};
use crate::material::{Material, material_wf};
use crate::fixed::SCALE;

verus! {

/// One surface intersection: where, with what orientation, and which
/// material (as a handle into the scene's material arena). The `normal`
/// always opposes the incoming ray; `front_face` records whether the ray
/// struck the outward side.
#[derive(Clone, Copy)]
pub struct HitRecord {
    pub point: Vec3,
    pub normal: Vec3,
    pub mat: usize,
    pub t: i64,
    pub front_face: bool,
}

/// The index and ray parameter of the object a scene scan settles on.
pub ghost struct SelV {
    pub idx: int,
    pub t: int,
}

/// The object the linear scan reports: walk the list keeping the closest
/// hit so far as the narrowing upper bound, so an exact tie goes to the
/// earlier object.
pub open spec fn scene_sel_s(objs: Seq<Sphere>, ray: RayV, tmin: int, tmax: int) -> Option<SelV>
    decreases objs.len(),
{
    if objs.len() == 0 {
        None
    } else {
        let prev = scene_sel_s(objs.drop_last(), ray, tmin, tmax);
        let bound = match prev {
            Option::Some(s) => s.t,
            Option::None => tmax,
        };
        let last = objs.last();
        if sphere_hits_s(last@.center, last@.radius, ray, tmin, bound) {
            Some(
                SelV {
                    idx: objs.len() - 1,
                    t: sel_root_s(last@.center, last@.radius, ray, tmin, bound),
                },
            )
        } else {
            prev
        }
    }
}

/// An ordered collection of spheres over an arena of shared materials.
pub struct Scene {
    pub objects: Vec<Sphere>,
    pub materials: Vec<Material>,
}

impl Scene {
    /// Every object within bounds, every material handle resolvable, every
    /// material's parameters valid.
    pub open spec fn wf(&self) -> bool {
        &&& forall|i: int|
            0 <= i < self.objects@.len() ==> sphere_wf((#[trigger] self.objects@[i])@)
        &&& forall|i: int|
            0 <= i < self.objects@.len() ==> (#[trigger] self.objects@[i]).mat
                < self.materials@.len()
        &&& forall|j: int|
            0 <= j < self.materials@.len() ==> material_wf((#[trigger] self.materials@[j])@)
    }

    pub fn new() -> (s: Scene)
        ensures
            s.objects@.len() == 0,
            s.materials@.len() == 0,
            s.wf(),
    {
        Scene { objects: Vec::new(), materials: Vec::new() }
    }

    /// Put a material into the arena and hand back its handle.
    pub fn add_material(&mut self, m: Material) -> (id: usize)
        requires
            old(self).wf(),
            material_wf(m@),
        ensures
            final(self).wf(),
            final(self).materials@ == old(self).materials@.push(m),
            final(self).objects@ == old(self).objects@,
            id as int == old(self).materials@.len(),
    {
        let id = self.materials.len();
        self.materials.push(m);
        id
    }

    /// Append a sphere referring to an already-registered material.
    pub fn add_sphere(&mut self, center: Vec3, radius: i64, mat: usize)
        requires
            old(self).wf(),
            in_range3(center@, POS_LIM as int),
            RADIUS_MIN <= radius <= POS_LIM as int,
            mat < old(self).materials@.len(),
        ensures
            final(self).wf(),
            final(self).objects@ == old(self).objects@.push(Sphere { center, radius, mat }),
            final(self).materials@ == old(self).materials@,
    {
        self.objects.push(Sphere { center, radius, mat });
    }

    /// Linear scan for the nearest hit in `(t_min, t_max)`: the running
    /// closest hit narrows the range, and the first of exactly-tied objects
    /// wins.
    pub fn hit(&self, ray: &Ray, t_min: i64, t_max: i64) -> (r: Option<HitRecord>)
        requires
            self.wf(),
            ray_ok(ray@),
            -T_LIM <= t_min <= T_LIM as int,
            -T_LIM <= t_max <= T_LIM as int,
        ensures
            (r is Some) == (scene_sel_s(self.objects@, ray@, t_min as int, t_max as int)
                is Some),
            r matches Some(rec) ==> (scene_sel_s(self.objects@, ray@, t_min as int,
                t_max as int) matches Some(sel) && {
                    &&& 0 <= sel.idx < self.objects@.len()
                    &&& rec.t as int == sel.t
                    &&& t_in(rec.t as int, t_min as int, t_max as int)
                    &&& rec.point@ == at_s(ray@, rec.t as int)
                    &&& rec.front_face == front_face_s(
                        self.objects@[sel.idx]@.center,
                        ray@,
                        rec.t as int,
                    )
                    &&& rec.normal@ == hit_normal_s(
                        self.objects@[sel.idx]@.center,
                        ray@,
                        rec.t as int,
                    )
                    &&& in_range3(rec.normal@, 2 * SCALE as int)
                    &&& in_range3(rec.point@, 0x48_0000_0000)
                    &&& rec.mat as int == self.objects@[sel.idx].mat as int
                    &&& rec.mat < self.materials@.len()
                }),
            r matches Some(rec) ==> forall|i: int|
                0 <= i < self.objects@.len() ==> !sphere_hits_s(
                    (#[trigger] self.objects@[i])@.center,
                    self.objects@[i]@.radius,
                    ray@,
                    t_min as int,
                    rec.t as int,
                ),
            r is None ==> forall|i: int|
                0 <= i < self.objects@.len() ==> !sphere_hits_s(
                    (#[trigger] self.objects@[i])@.center,
                    self.objects@[i]@.radius,
                    ray@,
                    t_min as int,
                    t_max as int,
                ),
    {
        proof {
            lemma_scene_sel_nearest(self.objects@, ray@, t_min as int, t_max as int);
        }
        let mut closest: i64 = t_max;
        let mut best: Option<HitRecord> = None;
        let mut i: usize = 0;
        while i < self.objects.len()
            invariant
                self.wf(),
                ray_ok(ray@),
                -T_LIM <= t_min <= T_LIM as int,
                -T_LIM <= t_max <= T_LIM as int,
                i <= self.objects@.len(),
                -T_LIM <= closest <= T_LIM as int,
                (best is Some) == (scene_sel_s(self.objects@.take(i as int), ray@,
                    t_min as int, t_max as int) is Some),
                best is None ==> closest == t_max,
                best matches Some(rec) ==> (scene_sel_s(self.objects@.take(i as int), ray@,
                    t_min as int, t_max as int) matches Some(sel) && {
                        &&& 0 <= sel.idx < i as int
                        &&& rec.t as int == sel.t
                        &&& closest == rec.t
                        &&& t_in(rec.t as int, t_min as int, t_max as int)
                        &&& rec.point@ == at_s(ray@, rec.t as int)
                        &&& rec.front_face == front_face_s(
                            self.objects@[sel.idx]@.center,
                            ray@,
                            rec.t as int,
                        )
                        &&& rec.normal@ == hit_normal_s(
                            self.objects@[sel.idx]@.center,
                            ray@,
                            rec.t as int,
                        )
                        &&& in_range3(rec.normal@, 2 * SCALE as int)
                        &&& in_range3(rec.point@, 0x48_0000_0000)
                        &&& rec.mat as int == self.objects@[sel.idx].mat as int
                    }),
            decreases self.objects@.len() - i,
        {
            let obj = &self.objects[i];
            let cand = obj.hit(ray, t_min, closest);
            proof {
                let pre = self.objects@.take(i as int + 1);
                assert(pre.drop_last() =~= self.objects@.take(i as int));
                assert(pre.last() == self.objects@[i as int]);
            }
            match cand {
                Some(rec2) => {
                    closest = rec2.t;
                    best = Some(rec2);
                },
                None => {},
            }
            i = i + 1;
        }
        proof {
            assert(self.objects@.take(self.objects@.len() as int) =~= self.objects@);
        }
        best
    }
}


/// What the scan's selection means geometrically: a reported hit is the
/// nearest one (no object in the list intersects strictly closer than the
/// reported parameter, and the first of exact ties wins by construction),
/// and no selection means no object intersects the queried range at all.
pub proof fn lemma_scene_sel_nearest(objs: Seq<Sphere>, ray: RayV, tmin: int, tmax: int)
    requires
        1 <= quad_a_s(ray),
    ensures
        scene_sel_s(objs, ray, tmin, tmax) matches Some(sel) ==> {
            &&& 0 <= sel.idx < objs.len()
            &&& t_in(sel.t, tmin, tmax)
            &&& forall|i: int|
                0 <= i < objs.len() ==> !sphere_hits_s(
                    (#[trigger] objs[i])@.center,
                    objs[i]@.radius,
                    ray,
                    tmin,
                    sel.t,
                )
        },
        scene_sel_s(objs, ray, tmin, tmax) is None ==> forall|i: int|
            0 <= i < objs.len() ==> !sphere_hits_s(
                (#[trigger] objs[i])@.center,
                objs[i]@.radius,
                ray,
                tmin,
                tmax,
            ),
    decreases objs.len(),
{
    if objs.len() == 0 {
    } else {
        let pre = objs.drop_last();
        lemma_scene_sel_nearest(pre, ray, tmin, tmax);
        let prev = scene_sel_s(pre, ray, tmin, tmax);
        let bound: int = match prev {
            Option::Some(s) => s.t,
            Option::None => tmax,
        };
        let last = objs.last();
        assert(forall|i: int| 0 <= i < objs.len() - 1 ==> objs[i] == pre[i]);
        if sphere_hits_s(last@.center, last@.radius, ray, tmin, bound) {
            let t_new = sel_root_s(last@.center, last@.radius, ray, tmin, bound);
            lemma_sphere_self_not_closer(last@.center, last@.radius, ray, tmin, bound);
            assert(t_in(t_new, tmin, tmax));
            assert forall|i: int| 0 <= i < objs.len() implies !sphere_hits_s(
                (#[trigger] objs[i])@.center,
                objs[i]@.radius,
                ray,
                tmin,
                t_new,
            ) by {
                if i < objs.len() - 1 {
                    if sphere_hits_s(objs[i]@.center, objs[i]@.radius, ray, tmin, t_new) {
                        lemma_sphere_range_mono(
                            objs[i]@.center,
                            objs[i]@.radius,
                            ray,
                            tmin,
                            t_new,
                            bound,
                        );
                    }
                } else {
                    assert(objs[i] == last);
                }
            };
        } else {
            if prev is Some {
                assert forall|i: int| 0 <= i < objs.len() implies !sphere_hits_s(
                    (#[trigger] objs[i])@.center,
                    objs[i]@.radius,
                    ray,
                    tmin,
                    bound,
                ) by {
                    if i == objs.len() - 1 {
                        assert(objs[i] == last);
                    }
                };
            }
        }
    }
}

} // verus!
