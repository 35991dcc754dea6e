//! The flat aggregate: scan every member, keep the nearest hit.

use vstd::prelude::*;

use crate::aabb::{aabb_wf, AABB};
use crate::cube::{step_best, step_window};
use crate::hittable::{record_on_ray, record_wf, HitRecord};
use crate::primitive::{prim_bbox, prim_hit_rec, prim_hit_t, prim_material, prim_wf, Primitive};
use crate::ray::{ray_wf, Ray};
use crate::scalar::{frac_le, frac_wf, lemma_frac_le_trans, Frac, Rat};
use crate::vec3::COORD_MAX;

verus! {

pub struct HittableList {
    pub objects: Vec<Primitive>,
}

pub open spec fn list_wf(l: HittableList) -> bool {
    forall|i: int| 0 <= i < l.objects.len() ==> prim_wf(#[trigger] l.objects[i])
}

/// The nearest hit over the first `k` members, found by scanning with a
/// shrinking search window: each member is queried up to the best
/// parameter found so far, and a new hit replaces the old one.
pub open spec fn list_best(objs: Seq<Primitive>, r: Ray, t0: Frac, t1: Frac, k: int) -> Option<
    Frac,
>
    decreases k,
{
    if k <= 0 {
        None
    } else {
        let prev = list_best(objs, r, t0, t1, k - 1);
        step_best(prev, prim_hit_t(objs[k - 1], r, t0, step_window(t1, prev)))
    }
}

/// The record-level scan: the same shrinking-window fold, carrying the
/// nearest member's whole record.
pub open spec fn list_hit_rec(objs: Seq<Primitive>, r: Ray, t0: Frac, t1: Frac, k: int) -> Option<
    HitRecord,
>
    decreases k,
{
    if k <= 0 {
        None
    } else {
        let prev = list_hit_rec(objs, r, t0, t1, k - 1);
        let w = match prev {
            Option::Some(rec) => rec.t@,
            Option::None => t1,
        };
        match prim_hit_rec(objs[k - 1], r, t0, w) {
            Option::Some(rec) => Some(rec),
            Option::None => prev,
        }
    }
}

/// The union of the first `k` members' boxes; nothing when the list is
/// empty or any member has no box.
pub open spec fn list_bbox(objs: Seq<Primitive>, tm0: int, tm1: int, k: int) -> Option<AABB>
    decreases k,
{
    if k <= 0 {
        None
    } else if k == 1 {
        prim_bbox(objs[0], tm0, tm1)
    } else {
        match (list_bbox(objs, tm0, tm1, k - 1), prim_bbox(objs[k - 1], tm0, tm1)) {
            (Some(acc), Some(bb)) => Some(AABB::spec_surrounding(bb, acc)),
            _ => None,
        }
    }
}

impl HittableList {
    /// The empty aggregate.
    pub fn new() -> (l: HittableList)
        ensures
            l.objects@ =~= Seq::<Primitive>::empty(),
            list_wf(l),
    {
        HittableList { objects: Vec::new() }
    }

    /// Append a member.
    pub fn add(&mut self, hittable: Primitive)
        ensures
            final(self).objects@ =~= old(self).objects@.push(hittable),
    {
        self.objects.push(hittable);
    }

    /// Scan every member with a shrinking window, keeping the nearest
    /// valid hit.
    pub fn hit(&self, ray: &Ray, t_min: &Rat, t_max: &Rat) -> (res: Option<HitRecord>)
        requires
            list_wf(*self),
            ray_wf(*ray),
            t_min.wf(),
            t_max.wf(),
        ensures
            res == list_hit_rec(
                self.objects@,
                *ray,
                t_min@,
                t_max@,
                self.objects@.len() as int,
            ),
            res matches Some(rec) ==> {
                &&& list_best(self.objects@, *ray, t_min@, t_max@, self.objects@.len() as int)
                    == Some(rec.t@)
                &&& record_wf(rec)
                &&& record_on_ray(rec, *ray)
                &&& frac_le(t_min@, rec.t@)
                &&& frac_le(rec.t@, t_max@)
                &&& exists|i: int|
                    0 <= i < self.objects@.len() && rec.material == prim_material(
                        #[trigger] self.objects@[i],
                    )
            },
            res is None ==> list_best(
                self.objects@,
                *ray,
                t_min@,
                t_max@,
                self.objects@.len() as int,
            ) is None,
    {
        let mut closest_record: Option<HitRecord> = None;
        let mut closest_so_far: Rat = *t_max;
        let n = self.objects.len();
        let mut i: usize = 0;
        while i < n
            invariant
                list_wf(*self),
                ray_wf(*ray),
                t_min.wf(),
                t_max.wf(),
                closest_so_far.wf(),
                n == self.objects@.len(),
                i <= n,
                closest_so_far@ == step_window(
                    t_max@,
                    list_best(self.objects@, *ray, t_min@, t_max@, i as int),
                ),
                frac_le(closest_so_far@, t_max@),
                closest_record == list_hit_rec(self.objects@, *ray, t_min@, t_max@, i as int),
                match closest_record {
                    Some(rec) => {
                        &&& list_best(self.objects@, *ray, t_min@, t_max@, i as int) == Some(
                            rec.t@,
                        )
                        &&& rec.t == closest_so_far
                        &&& record_wf(rec)
                        &&& record_on_ray(rec, *ray)
                        &&& frac_le(t_min@, rec.t@)
                        &&& frac_le(rec.t@, t_max@)
                        &&& exists|j: int|
                            0 <= j < self.objects@.len() && rec.material == prim_material(
                                #[trigger] self.objects@[j],
                            )
                    },
                    None => list_best(self.objects@, *ray, t_min@, t_max@, i as int) is None,
                },
            decreases n - i,
        {
            let object = &self.objects[i];
            if let Some(record) = object.hit(ray, t_min, &closest_so_far) {
                proof {
                    lemma_frac_le_trans(record.t@, closest_so_far@, t_max@);
                    assert(record.material == prim_material(self.objects@[i as int]));
                }
                closest_so_far = record.t;
                closest_record = Some(record);
            }
            i = i + 1;
        }
        closest_record
    }

    /// The union of all member boxes; nothing when the list is empty or
    /// a member is unbounded.
    pub fn bounding_box(&self, t0: i64, t1: i64) -> (res: Option<AABB>)
        requires
            list_wf(*self),
            -COORD_MAX <= t0 <= COORD_MAX,
            -COORD_MAX <= t1 <= COORD_MAX,
        ensures
            res == list_bbox(self.objects@, t0 as int, t1 as int, self.objects@.len() as int),
            res matches Some(bb) ==> aabb_wf(bb),
    {
        let n = self.objects.len();
        if n == 0 {
            return None;
        }
        let mut output_box: Option<AABB> = self.objects[0].bounding_box(t0, t1);
        if output_box.is_none() {
            proof {
                lemma_list_bbox_none(
                    self.objects@,
                    t0 as int,
                    t1 as int,
                    1,
                    self.objects@.len() as int,
                );
            }
            return None;
        }
        let mut i: usize = 1;
        while i < n
            invariant
                list_wf(*self),
                -COORD_MAX <= t0 <= COORD_MAX,
                -COORD_MAX <= t1 <= COORD_MAX,
                n == self.objects@.len(),
                1 <= i <= n,
                output_box == list_bbox(self.objects@, t0 as int, t1 as int, i as int),
                output_box matches Some(bb) && aabb_wf(bb),
            decreases n - i,
        {
            match self.objects[i].bounding_box(t0, t1) {
                Some(temp_box) => {
                    let acc = match output_box {
                        Some(acc) => acc,
                        None => AABB::default(),
                    };
                    output_box = Some(AABB::surrounding_box(temp_box, acc));
                },
                None => {
                    proof {
                        lemma_list_bbox_none(
                            self.objects@,
                            t0 as int,
                            t1 as int,
                            (i + 1) as int,
                            self.objects@.len() as int,
                        );
                    }
                    return None;
                },
            }
            i = i + 1;
        }
        output_box
    }
}

/// Once a member without a box appears, every longer prefix has no box.
proof fn lemma_list_bbox_none(objs: Seq<Primitive>, tm0: int, tm1: int, k: int, n: int)
    requires
        1 <= k <= n,
        list_bbox(objs, tm0, tm1, k) is None,
    ensures
        list_bbox(objs, tm0, tm1, n) is None,
    decreases n - k,
{
    if k < n {
        lemma_list_bbox_none(objs, tm0, tm1, k + 1, n);
    }
}

} // verus!
