//! Intersection queries: spans of ray parameters, bounding boxes, flat lists
//! and the bounding-volume tree.
use crate::rank::{less, lt, ZERO};
use crate::vec3::Axis;
use vstd::prelude::*;

verus! {

/// A half-open interval of ranks: `start` belongs to it, `end` does not.
#[derive(Copy, Clone, Debug, PartialEq, Eq, Structural)]
pub struct Span {
    pub start: i64,
    pub end: i64,
}

impl Span {
    /// Whether `t` lies in the span.
    pub open spec fn contains(self, t: int) -> bool {
        self.start <= t < self.end
    }

    /// The span that keeps the start and ends at `end`.
    pub open spec fn until(self, end: i64) -> Span {
        Span { start: self.start, end }
    }

    pub fn new(start: i64, end: i64) -> (span: Span)
        ensures
            span.start == start,
            span.end == end,
    {
        Span { start, end }
    }

    /// Whether `t` lies in the span.
    pub fn holds(&self, t: i64) -> (inside: bool)
        ensures
            inside == self.contains(t as int),
    {
        self.start <= t && t < self.end
    }
}

/// The smaller of two ranks.
pub open spec fn lesser(a: i64, b: i64) -> i64 {
    if a <= b {
        a
    } else {
        b
    }
}

/// The larger of two ranks.
pub open spec fn greater(a: i64, b: i64) -> i64 {
    if a >= b {
        a
    } else {
        b
    }
}

/// A corner of a box: one rank per axis.
#[derive(Copy, Clone, Debug, PartialEq, Eq, Structural)]
pub struct Corner {
    pub x: i64,
    pub y: i64,
    pub z: i64,
}

impl Corner {
    /// The rank along `axis`.
    pub open spec fn along(self, axis: Axis) -> i64 {
        match axis {
            Axis::X => self.x,
            Axis::Y => self.y,
            Axis::Z => self.z,
        }
    }

    pub fn new(x: i64, y: i64, z: i64) -> (c: Corner)
        ensures
            c.x == x,
            c.y == y,
            c.z == z,
    {
        Corner { x, y, z }
    }

    /// The rank along `axis`.
    pub fn get(&self, axis: Axis) -> (r: i64)
        ensures
            r == self.along(axis),
    {
        match axis {
            Axis::X => self.x,
            Axis::Y => self.y,
            Axis::Z => self.z,
        }
    }
}

/// What the box test needs from a ray: the stretch of the ray's parameter over
/// which the ray lies between two planes perpendicular to an axis.
pub trait Beam {
    /// The stretch, as the ranks of the parameters at which the ray enters and
    /// leaves the slab between the planes at `low` and `high` along `axis`.
    spec fn slab_model(&self, axis: Axis, low: i64, high: i64) -> (i64, i64);

    /// Computes the stretch. An implementation returns the same pair for the same
    /// ray and planes: that is all the contract asks.
    fn slab(&self, axis: Axis, low: i64, high: i64) -> (r: (i64, i64))
        ensures
            r == self.slab_model(axis, low, high),
    ;
}

/// Axis-aligned bounding box, given by its two extreme corners.
#[derive(Copy, Clone, Debug, PartialEq, Eq, Structural)]
pub struct AABB {
    pub min: Corner,
    pub max: Corner,
}

impl AABB {
    /// The box that reaches from the smaller of the two low corners to the larger
    /// of the two high corners, axis by axis.
    pub open spec fn hull(self, other: AABB) -> AABB {
        AABB {
            min: Corner {
                x: lesser(self.min.x, other.min.x),
                y: lesser(self.min.y, other.min.y),
                z: lesser(self.min.z, other.min.z),
            },
            max: Corner {
                x: greater(self.max.x, other.max.x),
                y: greater(self.max.y, other.max.y),
                z: greater(self.max.z, other.max.z),
            },
        }
    }

    /// Whether `inner` lies within this box on every axis.
    pub open spec fn encloses(self, inner: AABB) -> bool {
        forall|axis: Axis|
            self.min.along(axis) <= #[trigger] inner.min.along(axis) && inner.max.along(axis)
                <= self.max.along(axis)
    }

    /// The part of `span` during which the ray is inside the box along `axis`.
    pub open spec fn clip<R: Beam>(self, ray: &R, axis: Axis, span: Span) -> Span {
        let slab = ray.slab_model(axis, self.min.along(axis), self.max.along(axis));
        Span { start: greater(span.start, slab.0), end: lesser(span.end, slab.1) }
    }

    /// Whether the ray is inside the box on all three axes at once at some
    /// parameter of `span`: clipping the span axis by axis leaves it non-empty.
    pub open spec fn crossed_by<R: Beam>(self, ray: &R, span: Span) -> bool {
        let rest = self.clip(ray, Axis::Z, self.clip(ray, Axis::Y, self.clip(ray, Axis::X, span)));
        rest.start < rest.end
    }

    pub fn new(min: Corner, max: Corner) -> (b: AABB)
        ensures
            b.min == min,
            b.max == max,
    {
        AABB { min, max }
    }

    /// The smallest box around this box and `other`.
    pub fn surrounding(&self, other: &AABB) -> (b: AABB)
        ensures
            b == self.hull(*other),
    {
        let small = Corner::new(
            if self.min.x <= other.min.x { self.min.x } else { other.min.x },
            if self.min.y <= other.min.y { self.min.y } else { other.min.y },
            if self.min.z <= other.min.z { self.min.z } else { other.min.z },
        );
        let big = Corner::new(
            if self.max.x >= other.max.x { self.max.x } else { other.max.x },
            if self.max.y >= other.max.y { self.max.y } else { other.max.y },
            if self.max.z >= other.max.z { self.max.z } else { other.max.z },
        );
        AABB::new(small, big)
    }

    /// The slab test: clips the span by each axis in turn and gives up as soon as
    /// nothing is left of it.
    pub fn hit<R: Beam>(&self, ray: &R, hit_time: &Span) -> (crossed: bool)
        ensures
            crossed == self.crossed_by(ray, *hit_time),
    {
        let rest = self.clipped(ray, Axis::X, *hit_time);
        if rest.end <= rest.start {
            return false;
        }
        let rest = self.clipped(ray, Axis::Y, rest);
        if rest.end <= rest.start {
            return false;
        }
        let rest = self.clipped(ray, Axis::Z, rest);
        rest.end > rest.start
    }

    fn clipped<R: Beam>(&self, ray: &R, axis: Axis, span: Span) -> (rest: Span)
        ensures
            rest == self.clip(ray, axis, span),
    {
        let slab = ray.slab(axis, self.min.get(axis), self.max.get(axis));
        Span {
            start: if span.start >= slab.0 { span.start } else { slab.0 },
            end: if span.end <= slab.1 { span.end } else { slab.1 },
        }
    }

    /// Whether this box starts before `other` along `axis`, at the same rank, or
    /// after it: -1, 0 or 1.
    pub fn compare_axis(&self, other: &AABB, axis: Axis) -> (order: i8)
        ensures
            order == -1 <==> self.min.along(axis) < other.min.along(axis),
            order == 0 <==> self.min.along(axis) == other.min.along(axis),
            order == 1 <==> self.min.along(axis) > other.min.along(axis),
    {
        let a = self.min.get(axis);
        let b = other.min.get(axis);
        if a < b {
            -1
        } else if a == b {
            0
        } else {
            1
        }
    }
}

/// A successful intersection: the rank of the ray parameter at which it
/// happened, and whatever the struck surface recorded about it.
pub struct Hit<S> {
    pub time: i64,
    pub surface: S,
}

impl<S> Hit<S> {
    pub fn new(time: i64, surface: S) -> (hit: Hit<S>)
        ensures
            hit.time == time,
            hit.surface == surface,
    {
        Hit { time, surface }
    }
}

/// Whether a ray meets a surface from the front: `facing` is the rank of the
/// dot product of the ray's direction and the outward normal, and the ray comes
/// from the front where that is below zero.
pub fn front_face(facing: i64) -> (front: bool)
    ensures
        front == less(facing, ZERO),
{
    lt(facing, ZERO)
}

/// The time of a hit, if there is one.
pub open spec fn time_of<S>(hit: Option<Hit<S>>) -> Option<i64> {
    match hit {
        Some(h) => Some(h.time),
        None => None,
    }
}

/// Anything a ray of type `R` can be tested against.
///
/// The contract asks two things of an implementation that the library cannot
/// check where the implementation computes outside it: that `hit` and
/// `bounding_box` give the same answer whenever they are asked the same
/// question, which is what `strike` and `bounds` stand for, and that a hit lies
/// within the span it was asked for.
pub trait Hittable<R> {
    /// What a hit records besides its time.
    type Surface;

    /// The time of the hit that `hit` reports for this ray and span, if any.
    spec fn strike(&self, ray: &R, span: Span) -> Option<i64>;

    /// The box that `bounding_box` reports for this shutter interval, if any.
    spec fn bounds(&self, shutter: Span) -> Option<AABB>;

    /// The hit determined by the ray, or `None` if there is none whose time lies
    /// in `hit_time`.
    fn hit(&self, ray: &R, hit_time: &Span) -> (found: Option<Hit<Self::Surface>>)
        ensures
            time_of(found) == self.strike(ray, *hit_time),
            found is Some ==> hit_time.contains(found.unwrap().time as int),
    ;

    /// The box around everything the ray could strike while the shutter is open,
    /// or `None` for what has no box.
    fn bounding_box(&self, shutter_time: &Span) -> (bound: Option<AABB>)
        ensures
            bound == self.bounds(*shutter_time),
    ;
}

/// What scanning `items` in order reports when `found` is the time of the hit
/// kept so far and `span` already ends there: each item is asked for a hit in
/// what is left of the span, and a hit shortens the span to its own time.
pub open spec fn scan_from<R, P: Hittable<R>>(
    items: Seq<P>,
    ray: &R,
    span: Span,
    found: Option<i64>,
) -> Option<i64>
    decreases items.len(),
{
    if items.len() == 0 {
        found
    } else {
        match items[0].strike(ray, span) {
            Some(t) => scan_from(items.drop_first(), ray, span.until(t), Some(t)),
            None => scan_from(items.drop_first(), ray, span, found),
        }
    }
}

/// What scanning `items` in order reports for a ray and a span.
pub open spec fn scan<R, P: Hittable<R>>(items: Seq<P>, ray: &R, span: Span) -> Option<i64> {
    scan_from(items, ray, span, None)
}

/// The hull of the boxes of `items`, or `None` if there is no item or one of
/// them has no box.
pub open spec fn hull_of<R, P: Hittable<R>>(items: Seq<P>, shutter: Span) -> Option<AABB>
    decreases items.len(),
{
    if items.len() == 0 {
        None
    } else if items.len() == 1 {
        items[0].bounds(shutter)
    } else {
        match (hull_of(items.drop_last(), shutter), items.last().bounds(shutter)) {
            (Some(a), Some(b)) => Some(a.hull(b)),
            _ => None,
        }
    }
}

/// A flat list of things to hit, scanned in order.
pub struct HitList<P>(pub Vec<P>);

impl<P> HitList<P> {
    pub fn new() -> (list: HitList<P>)
        ensures
            list.0@.len() == 0,
    {
        HitList(Vec::new())
    }

    pub fn push(&mut self, val: P)
        ensures
            final(self).0@ == old(self).0@.push(val),
    {
        self.0.push(val)
    }
}

impl<R, P: Hittable<R>> Hittable<R> for HitList<P> {
    type Surface = P::Surface;

    open spec fn strike(&self, ray: &R, span: Span) -> Option<i64> {
        scan(self.0@, ray, span)
    }

    open spec fn bounds(&self, shutter: Span) -> Option<AABB> {
        hull_of(self.0@, shutter)
    }

    fn hit(&self, ray: &R, hit_time: &Span) -> (found: Option<Hit<P::Surface>>) {
        let mut range = *hit_time;
        let mut closest: Option<Hit<P::Surface>> = None;
        let mut i: usize = 0;
        assert(self.0@.skip(0) =~= self.0@);
        while i < self.0.len()
            invariant
                i <= self.0@.len(),
                range.start == hit_time.start,
                closest is None ==> range == *hit_time,
                closest is Some ==> range.end == closest.unwrap().time && hit_time.contains(
                    range.end as int,
                ),
                scan_from(self.0@.skip(i as int), ray, range, time_of(closest)) == scan(
                    self.0@,
                    ray,
                    *hit_time,
                ),
            decreases self.0@.len() - i,
        {
            proof {
                let rest = self.0@.skip(i as int);
                assert(rest[0] == self.0@[i as int]);
                assert(rest.drop_first() =~= self.0@.skip(i as int + 1));
            }
            if let Some(hit) = self.0[i].hit(ray, &range) {
                range.end = hit.time;
                closest = Some(hit);
            }
            i += 1;
        }
        closest
    }

    fn bounding_box(&self, shutter_time: &Span) -> (bound: Option<AABB>) {
        if self.0.len() == 0 {
            return None;
        }
        let mut ret_bound: Option<AABB> = self.0[0].bounding_box(shutter_time);
        let mut i: usize = 1;
        assert(self.0@.take(1) =~= seq![self.0@[0]]);
        while i < self.0.len()
            invariant
                1 <= i <= self.0@.len(),
                ret_bound == hull_of(self.0@.take(i as int), *shutter_time),
            decreases self.0@.len() - i,
        {
            proof {
                let head = self.0@.take(i as int + 1);
                assert(head.drop_last() =~= self.0@.take(i as int));
                assert(head.last() == self.0@[i as int]);
            }
            let next = self.0[i].bounding_box(shutter_time);
            ret_bound = match (ret_bound, next) {
                (Some(a), Some(b)) => Some(a.surrounding(&b)),
                _ => None,
            };
            i += 1;
        }
        assert(self.0@.take(i as int) =~= self.0@);
        ret_bound
    }
}

/// Enclosing is transitive, and a hull encloses both boxes it was made from.
pub proof fn lemma_hull_encloses(a: AABB, b: AABB)
    ensures
        a.hull(b).encloses(a),
        a.hull(b).encloses(b),
        forall|c: AABB| c.encloses(a) && c.encloses(b) ==> c.encloses(a.hull(b)),
{
    let h = a.hull(b);
    assert forall|axis: Axis|
        h.min.along(axis) <= #[trigger] a.min.along(axis) && a.max.along(axis) <= h.max.along(
            axis,
        ) by {}
    assert forall|axis: Axis|
        h.min.along(axis) <= #[trigger] b.min.along(axis) && b.max.along(axis) <= h.max.along(
            axis,
        ) by {}
    assert forall|c: AABB| c.encloses(a) && c.encloses(b) implies c.encloses(h) by {
        assert forall|axis: Axis|
            c.min.along(axis) <= #[trigger] h.min.along(axis) && h.max.along(axis) <= c.max.along(
                axis,
            ) by {
            assert(c.min.along(axis) <= a.min.along(axis));
            assert(c.min.along(axis) <= b.min.along(axis));
        }
    }
}

/// The hull of a run of boxed items encloses the box of each.
pub proof fn lemma_hull_of_encloses<R, P: Hittable<R>>(items: Seq<P>, shutter: Span, i: int)
    requires
        0 <= i < items.len(),
        hull_of(items, shutter) is Some,
    ensures
        items[i].bounds(shutter) is Some,
        hull_of(items, shutter).unwrap().encloses(items[i].bounds(shutter).unwrap()),
    decreases items.len(),
{
    if items.len() == 1 {
        let b = items[0].bounds(shutter).unwrap();
        assert(b.encloses(b));
    } else {
        let head = items.drop_last();
        let a = hull_of(head, shutter).unwrap();
        let b = items.last().bounds(shutter).unwrap();
        lemma_hull_encloses(a, b);
        if i < head.len() {
            lemma_hull_of_encloses(head, shutter, i);
            assert(head[i] == items[i]);
            let inner = items[i].bounds(shutter).unwrap();
            assert forall|axis: Axis|
                a.hull(b).min.along(axis) <= #[trigger] inner.min.along(axis) && inner.max.along(
                    axis,
                ) <= a.hull(b).max.along(axis) by {
                assert(a.hull(b).min.along(axis) <= a.min.along(axis));
                assert(a.min.along(axis) <= inner.min.along(axis));
            }
        }
    }
}

} // verus!
