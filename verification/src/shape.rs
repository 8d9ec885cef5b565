//! What shapes share: the choice between the two places where a ray meets a
//! sphere, and the placeholder that fills the empty side of a tree node.
use crate::closest::before;
use crate::hit::{Hit, Hittable, Span, AABB};
use vstd::prelude::*;

verus! {

/// A stand-in that no ray ever hits and that has no box.
#[derive(Copy, Clone, Debug)]
pub struct Dummy {}

impl<R> Hittable<R> for Dummy {
    type Surface = ();

    open spec fn strike(&self, ray: &R, span: Span) -> Option<i64> {
        None
    }

    open spec fn bounds(&self, shutter: Span) -> Option<AABB> {
        None
    }

    fn hit(&self, _ray: &R, _hit_time: &Span) -> (found: Option<Hit<()>>) {
        None
    }

    fn bounding_box(&self, _shutter_time: &Span) -> (bound: Option<AABB>) {
        None
    }
}

/// The root that counts as the hit: the nearer one if it lies in the span,
/// else the farther one if that lies in the span, else none.
pub open spec fn chosen_root(near: i64, far: i64, span: Span) -> Option<i64> {
    if span.contains(near as int) {
        Some(near)
    } else if span.contains(far as int) {
        Some(far)
    } else {
        None
    }
}

/// Chooses between the two ray parameters at which a ray meets a sphere.
pub fn select_root(near: i64, far: i64, hit_time: &Span) -> (root: Option<i64>)
    ensures
        root == chosen_root(near, far, *hit_time),
        root matches Some(t) ==> hit_time.contains(t as int),
{
    if hit_time.holds(near) {
        Some(near)
    } else if hit_time.holds(far) {
        Some(far)
    } else {
        None
    }
}

/// The choice of the root is steady: with the roots in order, shortening the
/// span loses the chosen root once the span ends at or before it, and changes
/// nothing else.
pub proof fn lemma_chosen_root_steady(near: i64, far: i64, start: i64, end: i64)
    requires
        near <= far,
    ensures
        chosen_root(near, far, Span { start, end }) == before(
            chosen_root(near, far, Span { start, end: i64::MAX }),
            end,
        ),
{
}

} // verus!
