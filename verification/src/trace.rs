//! The nearest hit of a ray among the primitives of a scene.

use vstd::prelude::*;
use crate::object::Object;
use crate::ray::Ray;
use crate::scalar::Scalar;

verus! {

/// The nearest intersection of a ray with the scene.
#[derive(Clone, Copy, Debug, PartialEq, Eq, Structural)]
pub struct HitPayload {
    /// Distance from the origin of the ray to the hit.
    pub t_near: Scalar,
    /// Which part of the primitive was hit.
    pub index: usize,
    /// Position of the primitive in the list that was searched.
    pub hit_obj: usize,
}

/// The primitive meets the ray in front of its origin.
pub open spec fn is_hit<O: Object>(object: O, ray: Ray) -> bool {
    object.spec_intersect(ray) matches Some((t, _)) && t@ > 0
}

/// The distance at which the primitive meets the ray (where it does).
pub open spec fn hit_distance<O: Object>(object: O, ray: Ray) -> int {
    match object.spec_intersect(ray) {
        Some((t, _)) => t@,
        None => 0,
    }
}

/// `hit` is the nearest hit of `ray` among the first `n` of `objects`: it
/// records what its primitive answered, no primitive is hit nearer, and
/// among equally near ones it is the first.
pub open spec fn is_nearest<O: Object>(ray: Ray, objects: Seq<O>, n: int, hit: HitPayload) -> bool {
    &&& hit.hit_obj < n
    &&& is_hit(objects[hit.hit_obj as int], ray)
    &&& objects[hit.hit_obj as int].spec_intersect(ray) == Some((hit.t_near, hit.index))
    &&& forall|i: int|
        0 <= i < n && #[trigger] is_hit(objects[i], ray) ==> hit.t_near@ <= hit_distance(
            objects[i],
            ray,
        )
    &&& forall|i: int|
        0 <= i < hit.hit_obj && #[trigger] is_hit(objects[i], ray) ==> hit.t_near@ < hit_distance(
            objects[i],
            ray,
        )
}

/// The nearest hit among the first `n` primitives, found by taking them in
/// order and keeping a hit only if it is strictly nearer than the best so far.
pub open spec fn nearest_among<O: Object>(ray: Ray, objects: Seq<O>, n: nat) -> Option<HitPayload>
    decreases n,
{
    if n == 0 {
        None
    } else {
        let best = nearest_among(ray, objects, (n - 1) as nat);
        match objects[n - 1].spec_intersect(ray) {
            Some((t, index)) => if t@ > 0 && (best is None || t@ < best->0.t_near@) {
                Some(HitPayload { t_near: t, index, hit_obj: (n - 1) as usize })
            } else {
                best
            },
            None => best,
        }
    }
}

/// The nearest hit of `ray` among `objects`.
pub open spec fn spec_trace<O: Object>(ray: Ray, objects: Seq<O>) -> Option<HitPayload> {
    nearest_among(ray, objects, objects.len())
}

/// What `nearest_among` finds is the nearest hit, and it finds none only
/// where no primitive is hit.
pub proof fn lemma_nearest_among<O: Object>(ray: Ray, objects: Seq<O>, n: nat)
    requires
        n <= objects.len() <= usize::MAX,
    ensures
        nearest_among(ray, objects, n) matches Some(hit) ==> is_nearest(ray, objects, n as int, hit),
        nearest_among(ray, objects, n) is None ==> forall|i: int|
            0 <= i < n ==> !#[trigger] is_hit(objects[i], ray),
    decreases n,
{
    if n > 0 {
        lemma_nearest_among(ray, objects, (n - 1) as nat);
    }
}

/// The nearest intersection of `ray` with `objects`: the hit with the
/// smallest positive distance, the first of them where several primitives are
/// hit equally near, or `None` where no primitive is hit.
pub fn trace<O: Object>(ray: &Ray, objects: &Vec<O>) -> (r: Option<HitPayload>)
    ensures
        r == spec_trace(*ray, objects@),
        r matches Some(hit) ==> is_nearest(*ray, objects@, objects@.len() as int, hit),
        r is None <==> forall|i: int| 0 <= i < objects@.len() ==> !#[trigger] is_hit(objects@[i], *ray),
{
    let mut best: Option<HitPayload> = None;
    let mut i: usize = 0;
    while i < objects.len()
        invariant
            i <= objects@.len(),
            best == nearest_among(*ray, objects@, i as nat),
        decreases objects@.len() - i,
    {
        match objects[i].intersect(ray) {
            Some((t, index)) => {
                let nearer = match best {
                    Some(b) => t.raw < b.t_near.raw,
                    None => true,
                };
                if t.raw > 0 && nearer {
                    best = Some(HitPayload { t_near: t, index, hit_obj: i });
                }
            },
            None => {},
        }
        i = i + 1;
    }
    proof {
        lemma_nearest_among(*ray, objects@, objects@.len());
    }
    best
}

} // verus!
