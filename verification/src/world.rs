//! The scene aggregate: a nearest-hit query over an ordered collection of
//! primitives, with a single-pass shrinking upper bound.

use vstd::prelude::*;

use crate::hit::{
    lemma_sphere_hit_record, lemma_sphere_shrink_back, lemma_sphere_shrink_keep, sphere_hit_spec,
    sphere_wf, t_ok, HitInfo, HitV, Hitable, Sphere,
};
use crate::ray::{ray_wf, Ray, RayV};

verus! {

/// The view of an optional hit record.
pub open spec fn opt_view(o: Option<HitInfo>) -> Option<HitV> {
    match o {
        Some(h) => Some(h@),
        None => None,
    }
}

/// The shrinking-bound scan over the remaining primitives: each primitive is
/// probed with the current upper bound, and a success both replaces the best
/// record and tightens the bound.
pub open spec fn scan_hit_s<T: Hitable>(
    items: Seq<T>,
    ray: RayV,
    t_min: int,
    closest: int,
    best: Option<HitV>,
) -> Option<HitV>
    decreases items.len(),
{
    if items.len() == 0 {
        best
    } else {
        match items[0].hit_spec(ray, t_min, closest) {
            Some(h) => scan_hit_s(items.drop_first(), ray, t_min, h.t, Some(h)),
            None => scan_hit_s(items.drop_first(), ray, t_min, closest, best),
        }
    }
}

/// An ordered collection of primitives queried as one.
pub struct HitableList<T> where T: Hitable {
    /// The primitives, in insertion order.
    pub list: Vec<T>,
    /// The number of primitives.
    pub list_size: i32,
}

impl<T> HitableList<T> where T: Hitable {
    /// An empty scene.
    pub fn new() -> (r: HitableList<T>)
        ensures
            r.list@ =~= Seq::<T>::empty(),
            r.list_size == 0,
    {
        HitableList::<T> { list: Vec::<T>::new(), list_size: 0 }
    }

    /// A scene holding the given primitives, in their order.
    pub fn new_filled_list(items: Vec<T>) -> (r: HitableList<T>)
        requires
            items@.len() <= 0x7fff_ffff,
        ensures
            r.list@ == items@,
            r.list_size as int == items@.len(),
    {
        let list_size: i32 = items.len() as i32;
        HitableList::<T> { list: items, list_size }
    }
}

impl<T> Hitable for HitableList<T> where T: Hitable {
    open spec fn wf(&self) -> bool {
        forall|i: int| 0 <= i < self.list@.len() ==> #[trigger] self.list@[i].wf()
    }

    open spec fn hit_spec(&self, ray: RayV, t_min: int, t_max: int) -> Option<HitV> {
        scan_hit_s(self.list@, ray, t_min, t_max, None)
    }

    fn hit(&self, ray: &Ray, t_min: i64, t_max: i64) -> (r: Option<HitInfo>) {
        let mut best: Option<HitInfo> = None;
        let mut closest: i64 = t_max;
        let n: usize = self.list.len();
        let mut i: usize = 0;
        proof {
            assert(self.list@.skip(0) =~= self.list@);
        }
        while i < n
            invariant
                0 <= i <= n,
                n == self.list@.len(),
                self.wf(),
                ray_wf(ray@),
                t_ok(t_min as int),
                t_ok(t_max as int),
                t_ok(closest as int),
                match best {
                    Some(h) => closest as int == h@.t && (t_min as int) < h@.t < (t_max as int),
                    None => closest == t_max,
                },
                scan_hit_s(self.list@.skip(i as int), ray@, t_min as int, closest as int, opt_view(best))
                    == scan_hit_s(self.list@, ray@, t_min as int, t_max as int, None::<HitV>),
            decreases n - i,
        {
            proof {
                assert(self.list@.skip(i as int).drop_first() =~= self.list@.skip(i as int + 1));
                assert(self.list@.skip(i as int)[0] == self.list@[i as int]);
            }
            let item: &T = &self.list[i];
            match item.hit(ray, t_min, closest) {
                Some(h) => {
                    closest = h.hit_param;
                    best = Some(h);
                },
                None => {},
            }
            i = i + 1;
        }
        proof {
            assert(self.list@.skip(n as int) =~= Seq::<T>::empty());
        }
        best
    }
}

/// The scan result never worsens the best record, finds every hit nearer
/// than the current bound, and reports only genuine hits of the primitives.
proof fn lemma_scan_min(
    items: Seq<Sphere>,
    ray: RayV,
    t_min: int,
    t_max: int,
    closest: int,
    best: Option<HitV>,
)
    requires
        closest <= t_max,
        best matches Some(bh) ==> bh.t == closest,
    ensures
        best matches Some(bh) ==> scan_hit_s(items, ray, t_min, closest, best) matches Some(h)
            && h.t <= bh.t,
        forall|j: int|
            0 <= j < items.len() && (#[trigger] sphere_hit_spec(items[j]@, ray, t_min, t_max))
                is Some && sphere_hit_spec(items[j]@, ray, t_min, t_max)->Some_0.t < closest
                ==> scan_hit_s(items, ray, t_min, closest, best) is Some && scan_hit_s(
                items,
                ray,
                t_min,
                closest,
                best,
            )->Some_0.t <= sphere_hit_spec(items[j]@, ray, t_min, t_max)->Some_0.t,
        scan_hit_s(items, ray, t_min, closest, best) matches Some(h) ==> best == Some(h) || exists|
            j: int,
        |
            0 <= j < items.len() && #[trigger] sphere_hit_spec(items[j]@, ray, t_min, t_max)
                == Some(h),
    decreases items.len(),
{
    if items.len() == 0 {
    } else {
        let x = items[0];
        let rest = items.drop_first();
        match x.hit_spec(ray, t_min, closest) {
            Some(h) => {
                lemma_sphere_hit_record(x@, ray, t_min, closest, h);
                lemma_sphere_shrink_back(x@, ray, t_min, t_max, closest, h);
                lemma_scan_min(rest, ray, t_min, t_max, h.t, Some(h));
                assert forall|j: int|
                    0 <= j < items.len() && (#[trigger] sphere_hit_spec(
                        items[j]@,
                        ray,
                        t_min,
                        t_max,
                    )) is Some && sphere_hit_spec(items[j]@, ray, t_min, t_max)->Some_0.t
                    < closest implies scan_hit_s(items, ray, t_min, closest, best) is Some
                    && scan_hit_s(items, ray, t_min, closest, best)->Some_0.t <= sphere_hit_spec(
                    items[j]@,
                    ray,
                    t_min,
                    t_max,
                )->Some_0.t by {
                    let hj = sphere_hit_spec(items[j]@, ray, t_min, t_max)->Some_0;
                    if j == 0 {
                        assert(hj == h);
                    } else {
                        assert(rest[j - 1] == items[j]);
                        if hj.t < h.t {
                        }
                    }
                }
            },
            None => {
                lemma_scan_min(rest, ray, t_min, t_max, closest, best);
                assert forall|j: int|
                    0 <= j < items.len() && (#[trigger] sphere_hit_spec(
                        items[j]@,
                        ray,
                        t_min,
                        t_max,
                    )) is Some && sphere_hit_spec(items[j]@, ray, t_min, t_max)->Some_0.t
                    < closest implies scan_hit_s(items, ray, t_min, closest, best) is Some
                    && scan_hit_s(items, ray, t_min, closest, best)->Some_0.t <= sphere_hit_spec(
                    items[j]@,
                    ray,
                    t_min,
                    t_max,
                )->Some_0.t by {
                    let hj = sphere_hit_spec(items[j]@, ray, t_min, t_max)->Some_0;
                    if j == 0 {
                        lemma_sphere_shrink_keep(x@, ray, t_min, t_max, closest, hj);
                        assert(false);
                    } else {
                        assert(rest[j - 1] == items[j]);
                    }
                }
            },
        }
    }
}

/// Law: over a scene of spheres, the aggregate query returns a hit whose
/// parameter is minimal among every sphere's own hit on the same band, and
/// that hit is a genuine hit of one of the spheres.
pub proof fn lemma_nearest_hit(items: Seq<Sphere>, ray: RayV, t_min: int, t_max: int)
    ensures
        forall|j: int|
            0 <= j < items.len() && (#[trigger] sphere_hit_spec(items[j]@, ray, t_min, t_max))
                is Some ==> scan_hit_s(items, ray, t_min, t_max, None) is Some && scan_hit_s(
                items,
                ray,
                t_min,
                t_max,
                None,
            )->Some_0.t <= sphere_hit_spec(items[j]@, ray, t_min, t_max)->Some_0.t,
        scan_hit_s(items, ray, t_min, t_max, None) matches Some(h) ==> exists|j: int|
            0 <= j < items.len() && #[trigger] sphere_hit_spec(items[j]@, ray, t_min, t_max)
                == Some(h),
{
    lemma_scan_min(items, ray, t_min, t_max, t_max, None);
    assert forall|j: int|
        0 <= j < items.len() && (#[trigger] sphere_hit_spec(items[j]@, ray, t_min, t_max))
        is Some implies scan_hit_s(items, ray, t_min, t_max, None) is Some && scan_hit_s(
        items,
        ray,
        t_min,
        t_max,
        None,
    )->Some_0.t <= sphere_hit_spec(items[j]@, ray, t_min, t_max)->Some_0.t by {
        let hj = sphere_hit_spec(items[j]@, ray, t_min, t_max)->Some_0;
        lemma_sphere_hit_record(items[j]@, ray, t_min, t_max, hj);
        assert(hj.t < t_max);
    }
}

} // verus!
