//! The closest hit as a value, and the proof that a flat list and a tree built
//! over the same items report it alike.
use crate::bvh::{Node, BVH};
use crate::hit::{lesser, scan, scan_from, Beam, HitList, Hittable, Span, AABB};
use crate::vec3::Axis;
use vstd::prelude::*;

verus! {

/// The earlier of two times, either of which may be missing.
pub open spec fn earlier(a: Option<i64>, b: Option<i64>) -> Option<i64> {
    match (a, b) {
        (Some(x), Some(y)) => Some(lesser(x, y)),
        (Some(_), None) => a,
        (None, _) => b,
    }
}

/// The time `t` if it comes before `end`, and nothing otherwise.
pub open spec fn before(t: Option<i64>, end: i64) -> Option<i64> {
    match t {
        Some(x) => if x < end {
            t
        } else {
            None
        },
        None => None,
    }
}

/// Where the ray first meets `p` at or after `start`: what `p` reports when the
/// span is open towards the far end.
pub open spec fn first_crossing<R, P: Hittable<R>>(p: P, ray: &R, start: i64) -> Option<i64> {
    p.strike(ray, Span { start, end: i64::MAX })
}

/// Shortening the span does not change what `p` reports, except that a hit at
/// or beyond the new end is lost: `p` reports its first crossing whenever the
/// span still reaches that far, and nothing else.
pub open spec fn steady<R, P: Hittable<R>>(p: P, ray: &R, start: i64) -> bool {
    forall|end: i64| #[trigger]
        p.strike(ray, Span { start, end }) == before(first_crossing(p, ray, start), end)
}

/// A ray that hits `p` within a span also crosses the box of `p` within it.
pub open spec fn boxed_in<R: Beam, P: Hittable<R>>(
    p: P,
    ray: &R,
    start: i64,
    shutter: Span,
) -> bool {
    forall|end: i64|
        (#[trigger] p.strike(ray, Span { start, end })) is Some && p.bounds(shutter) is Some
            ==> p.bounds(shutter).unwrap().crossed_by(ray, Span { start, end })
}

/// The stretch of the ray inside a slab does not shrink when the slab grows.
pub open spec fn widening<R: Beam>(ray: &R) -> bool {
    forall|axis: Axis, low: i64, high: i64, wide_low: i64, wide_high: i64|
        wide_low <= low && high <= wide_high ==> (#[trigger] ray.slab_model(
            axis,
            wide_low,
            wide_high,
        )).0 <= (#[trigger] ray.slab_model(axis, low, high)).0 && ray.slab_model(axis, low, high).1
            <= ray.slab_model(axis, wide_low, wide_high).1
}

/// The earliest first crossing among the items.
pub open spec fn nearest<R, P: Hittable<R>>(items: Seq<P>, ray: &R, start: i64) -> Option<i64>
    decreases items.len(),
{
    if items.len() == 0 {
        None
    } else {
        earlier(
            nearest(items.drop_last(), ray, start),
            first_crossing(items.last(), ray, start),
        )
    }
}

/// `nearest` is the least of the first crossings: it is missing only if all of
/// them are, and otherwise it is one of them and none comes before it.
pub proof fn lemma_nearest_is_least<R, P: Hittable<R>>(items: Seq<P>, ray: &R, start: i64)
    ensures
        nearest(items, ray, start) is None <==> forall|i: int|
            0 <= i < items.len() ==> first_crossing(#[trigger] items[i], ray, start) is None,
        nearest(items, ray, start) is Some ==> exists|i: int|
            0 <= i < items.len() && first_crossing(#[trigger] items[i], ray, start) == nearest(
                items,
                ray,
                start,
            ),
        forall|i: int|
            0 <= i < items.len() && first_crossing(#[trigger] items[i], ray, start) is Some
                ==> nearest(items, ray, start) is Some && nearest(items, ray, start).unwrap()
                <= first_crossing(items[i], ray, start).unwrap(),
    decreases items.len(),
{
    if items.len() > 0 {
        let head = items.drop_last();
        lemma_nearest_is_least(head, ray, start);
        let last = items.len() - 1;
        assert forall|i: int| 0 <= i < last implies head[i] == items[i] by {}
        if nearest(items, ray, start) is Some {
            if nearest(items, ray, start) == first_crossing(items.last(), ray, start) {
                assert(first_crossing(items[last], ray, start) == nearest(items, ray, start));
            } else {
                let i = choose|i: int|
                    0 <= i < head.len() && first_crossing(#[trigger] head[i], ray, start)
                        == nearest(head, ray, start);
                assert(first_crossing(items[i], ray, start) == nearest(items, ray, start));
            }
        }
        assert forall|i: int|
            0 <= i < items.len() && first_crossing(
                #[trigger] items[i],
                ray,
                start,
            ) is Some implies nearest(items, ray, start) is Some && nearest(
            items,
            ray,
            start,
        ).unwrap() <= first_crossing(items[i], ray, start).unwrap() by {
            if i < last {
                assert(head[i] == items[i]);
            }
        }
        if nearest(items, ray, start) is None {
            assert forall|i: int| 0 <= i < items.len() implies first_crossing(
                #[trigger] items[i],
                ray,
                start,
            ) is None by {
                if i < last {
                    assert(head[i] == items[i]);
                }
            }
        }
    }
}

/// The nearest crossing of a single item is its first crossing.
pub proof fn lemma_nearest_of_one<R, P: Hittable<R>>(p: P, ray: &R, start: i64)
    ensures
        nearest(seq![p], ray, start) == first_crossing(p, ray, start),
{
    let one = seq![p];
    assert(one.len() == 1);
    assert(one.last() == p);
    assert(one.drop_last().len() == 0);
    assert(nearest(one.drop_last(), ray, start) is None);
}

/// The nearest crossing of two runs of items put together is the earlier of
/// their nearest crossings.
pub proof fn lemma_nearest_of_both<R, P: Hittable<R>>(a: Seq<P>, b: Seq<P>, ray: &R, start: i64)
    ensures
        nearest(a + b, ray, start) == earlier(nearest(a, ray, start), nearest(b, ray, start)),
    decreases b.len(),
{
    if b.len() == 0 {
        assert(a + b =~= a);
    } else {
        assert((a + b).drop_last() =~= a + b.drop_last());
        assert((a + b).last() == b.last());
        lemma_nearest_of_both(a, b.drop_last(), ray, start);
    }
}

/// Two runs that hold the same items, in whatever order, have the same
/// nearest crossing.
pub proof fn lemma_nearest_ignores_order<R, P: Hittable<R>>(
    a: Seq<P>,
    b: Seq<P>,
    ray: &R,
    start: i64,
)
    requires
        a.to_multiset() == b.to_multiset(),
    ensures
        nearest(a, ray, start) == nearest(b, ray, start),
{
    broadcast use vstd::seq_lib::group_to_multiset_ensures;

    lemma_nearest_is_least(a, ray, start);
    lemma_nearest_is_least(b, ray, start);
    assert forall|i: int| 0 <= i < a.len() implies b.contains(#[trigger] a[i]) by {
        assert(a.contains(a[i]));
        assert(a.to_multiset().count(a[i]) > 0);
    }
    assert forall|i: int| 0 <= i < b.len() implies a.contains(#[trigger] b[i]) by {
        assert(b.contains(b[i]));
        assert(b.to_multiset().count(b[i]) > 0);
    }
    let na = nearest(a, ray, start);
    let nb = nearest(b, ray, start);
    if na is Some {
        let i = choose|i: int|
            0 <= i < a.len() && first_crossing(#[trigger] a[i], ray, start) == na;
        assert(b.contains(a[i]));
        let j = choose|j: int| 0 <= j < b.len() && b[j] == a[i];
        assert(first_crossing(b[j], ray, start) is Some);
        assert(nb is Some && nb.unwrap() <= na.unwrap());
    }
    if nb is Some {
        let i = choose|i: int|
            0 <= i < b.len() && first_crossing(#[trigger] b[i], ray, start) == nb;
        assert(a.contains(b[i]));
        let j = choose|j: int| 0 <= j < a.len() && a[j] == b[i];
        assert(first_crossing(a[j], ray, start) is Some);
        assert(na is Some && na.unwrap() <= nb.unwrap());
    }
}

/// What a scan that already holds a hit goes on to report: the nearest crossing
/// of the remaining items if it comes before the end of what is left of the
/// span, and the hit it holds otherwise.
proof fn lemma_scan_from<R, P: Hittable<R>>(
    items: Seq<P>,
    ray: &R,
    span: Span,
    found: Option<i64>,
)
    requires
        forall|p: P| #[trigger] items.contains(p) ==> steady(p, ray, span.start),
    ensures
        scan_from(items, ray, span, found) == match before(
            nearest(items, ray, span.start),
            span.end,
        ) {
            Some(t) => Some(t),
            None => found,
        },
    decreases items.len(),
{
    if items.len() > 0 {
        let head = items[0];
        let tail = items.drop_first();
        assert(items.contains(head));
        assert forall|p: P| tail.contains(p) implies steady(p, ray, span.start) by {
            assert(exists|i: int| 0 <= i < tail.len() && tail[i] == p);
            let i = choose|i: int| 0 <= i < tail.len() && tail[i] == p;
            assert(tail[i] == items[i + 1]);
            assert(items.contains(items[i + 1]));
        }
        assert(seq![head] + tail =~= items);
        lemma_nearest_of_both(seq![head], tail, ray, span.start);
        assert(nearest(seq![head], ray, span.start) == first_crossing(head, ray, span.start)) by {
            lemma_nearest_of_one(head, ray, span.start);
        }
        assert(head.strike(ray, span) == before(
            first_crossing(head, ray, span.start),
            span.end,
        )) by {
            assert(span == Span { start: span.start, end: span.end });
        }
        match head.strike(ray, span) {
            Some(t) => {
                lemma_scan_from(tail, ray, span.until(t), Some(t));
            },
            None => {
                lemma_scan_from(tail, ray, span, found);
            },
        }
    }
}

/// A flat list reports the closest hit: scanning items that are all steady for
/// the ray yields their nearest crossing, provided it lies before the end of
/// the span, and nothing otherwise.
pub proof fn lemma_scan_reports_nearest<R, P: Hittable<R>>(items: Seq<P>, ray: &R, span: Span)
    requires
        forall|p: P| #[trigger] items.contains(p) ==> steady(p, ray, span.start),
    ensures
        scan(items, ray, span) == before(nearest(items, ray, span.start), span.end),
{
    lemma_scan_from(items, ray, span, None);
}

/// A box that encloses a box the ray crosses is crossed as well, within the
/// same span, if the ray's stretches widen with the slab.
pub proof fn lemma_crossing_grows<R: Beam>(inner: AABB, outer: AABB, ray: &R, span: Span)
    requires
        outer.encloses(inner),
        widening(ray),
        inner.crossed_by(ray, span),
    ensures
        outer.crossed_by(ray, span),
{
    assert(outer.min.along(Axis::X) <= inner.min.along(Axis::X));
    assert(outer.min.along(Axis::Y) <= inner.min.along(Axis::Y));
    assert(outer.min.along(Axis::Z) <= inner.min.along(Axis::Z));
    let ix = ray.slab_model(Axis::X, inner.min.x, inner.max.x);
    let ox = ray.slab_model(Axis::X, outer.min.x, outer.max.x);
    let iy = ray.slab_model(Axis::Y, inner.min.y, inner.max.y);
    let oy = ray.slab_model(Axis::Y, outer.min.y, outer.max.y);
    let iz = ray.slab_model(Axis::Z, inner.min.z, inner.max.z);
    let oz = ray.slab_model(Axis::Z, outer.min.z, outer.max.z);
    assert(ox.0 <= ix.0 && ix.1 <= ox.1);
    assert(oy.0 <= iy.0 && iy.1 <= oy.1);
    assert(oz.0 <= iz.0 && iz.1 <= oz.1);
}

/// In a well-formed tree every item has a box, and the box of the tree
/// encloses it.
pub proof fn lemma_tree_encloses<R, P: Hittable<R>>(tree: BVH<P>, shutter: Span, p: P)
    requires
        tree.well_formed::<R>(shutter),
        tree.leaves().contains(p),
    ensures
        p.bounds(shutter) is Some,
        tree.bound_box.encloses(p.bounds(shutter).unwrap()),
    decreases tree,
{
    let i = choose|i: int| 0 <= i < tree.leaves().len() && tree.leaves()[i] == p;
    let l = tree.left.leaves();
    let r = tree.right.leaves();
    if i < l.len() {
        assert(l[i] == p);
        assert(l.contains(p));
        lemma_node_encloses::<R, P>(tree.left, shutter, p);
        let lb = tree.left.bounds::<R>(shutter).unwrap();
        let rb = tree.right.bounds::<R>(shutter).unwrap();
        crate::hit::lemma_hull_encloses(lb, rb);
        lemma_encloses_chain(tree.bound_box, lb, p.bounds(shutter).unwrap());
    } else {
        assert(r[i - l.len()] == p);
        assert(r.contains(p));
        lemma_node_encloses::<R, P>(tree.right, shutter, p);
        let rb = tree.right.bounds::<R>(shutter).unwrap();
        match tree.left {
            Node::Placeholder(_) => {},
            _ => {
                let lb = tree.left.bounds::<R>(shutter).unwrap();
                crate::hit::lemma_hull_encloses(lb, rb);
            },
        }
        lemma_encloses_chain(tree.bound_box, rb, p.bounds(shutter).unwrap());
    }
}

proof fn lemma_node_encloses<R, P: Hittable<R>>(node: Node<P>, shutter: Span, p: P)
    requires
        node.well_formed::<R>(shutter),
        node.leaves().contains(p),
        !(node is Leaf) || node.bounds::<R>(shutter) is Some,
    ensures
        p.bounds(shutter) is Some,
        node.bounds::<R>(shutter) is Some,
        node.bounds::<R>(shutter).unwrap().encloses(p.bounds(shutter).unwrap()),
    decreases node,
{
    match node {
        Node::Placeholder(_) => {
            assert(node.leaves().len() == 0);
        },
        Node::Leaf(q) => {
            assert(node.leaves()[0] == q);
            let b = q.bounds(shutter).unwrap();
            assert(b.encloses(b));
        },
        Node::Branch(tree) => {
            lemma_tree_encloses::<R, P>(*tree, shutter, p);
        },
    }
}

proof fn lemma_encloses_chain(outer: AABB, middle: AABB, inner: AABB)
    requires
        outer.encloses(middle),
        middle.encloses(inner),
    ensures
        outer.encloses(inner),
{
    assert forall|axis: Axis|
        outer.min.along(axis) <= #[trigger] inner.min.along(axis) && inner.max.along(axis)
            <= outer.max.along(axis) by {
        assert(outer.min.along(axis) <= middle.min.along(axis));
        assert(middle.min.along(axis) <= inner.min.along(axis));
    }
}

/// What the agreement of tree and list asks of the items for one ray: each is
/// steady, and each is hit only where the ray is inside its box.
pub open spec fn fit_for<R: Beam, P: Hittable<R>>(
    items: Seq<P>,
    ray: &R,
    start: i64,
    shutter: Span,
) -> bool {
    forall|p: P|
        #[trigger] items.contains(p) ==> steady(p, ray, start) && boxed_in(p, ray, start, shutter)
}

/// A well-formed tree reports the closest hit: the nearest crossing of its
/// items, provided it lies before the end of the span, and nothing otherwise.
pub proof fn lemma_tree_reports_nearest<R: Beam, P: Hittable<R>>(
    tree: BVH<P>,
    ray: &R,
    span: Span,
    shutter: Span,
)
    requires
        tree.well_formed::<R>(shutter),
        widening(ray),
        fit_for(tree.leaves(), ray, span.start, shutter),
    ensures
        tree.reports(ray, span) == before(nearest(tree.leaves(), ray, span.start), span.end),
    decreases tree,
{
    let l = tree.left.leaves();
    let r = tree.right.leaves();
    let all = tree.leaves();
    assert forall|p: P| l.contains(p) implies all.contains(p) by {
        let i = choose|i: int| 0 <= i < l.len() && l[i] == p;
        assert(all[i] == p);
    }
    assert forall|p: P| r.contains(p) implies all.contains(p) by {
        let i = choose|i: int| 0 <= i < r.len() && r[i] == p;
        assert(all[l.len() + i] == p);
    }
    assert(fit_for(l, ray, span.start, shutter));
    assert(fit_for(r, ray, span.start, shutter));
    lemma_nearest_of_both(l, r, ray, span.start);
    let best = nearest(all, ray, span.start);
    if !tree.bound_box.crossed_by(ray, span) {
        if before(best, span.end) is Some {
            lemma_nearest_is_least(all, ray, span.start);
            let i = choose|i: int|
                0 <= i < all.len() && first_crossing(#[trigger] all[i], ray, span.start) == best;
            let p = all[i];
            assert(all.contains(p));
            assert(steady(p, ray, span.start) && boxed_in(p, ray, span.start, shutter));
            assert(span == Span { start: span.start, end: span.end });
            assert(p.strike(ray, Span { start: span.start, end: span.end }) == before(
                first_crossing(p, ray, span.start),
                span.end,
            ));
            lemma_tree_encloses::<R, P>(tree, shutter, p);
            lemma_crossing_grows(p.bounds(shutter).unwrap(), tree.bound_box, ray, span);
        }
    } else {
        lemma_node_reports_nearest(tree.left, ray, span, shutter);
        let left = tree.left.reports(ray, span);
        let rest = match left {
            Some(t) => span.until(t),
            None => span,
        };
        lemma_node_reports_nearest(tree.right, ray, rest, shutter);
    }
}

proof fn lemma_node_reports_nearest<R: Beam, P: Hittable<R>>(
    node: Node<P>,
    ray: &R,
    span: Span,
    shutter: Span,
)
    requires
        node.well_formed::<R>(shutter),
        widening(ray),
        fit_for(node.leaves(), ray, span.start, shutter),
    ensures
        node.reports(ray, span) == before(nearest(node.leaves(), ray, span.start), span.end),
    decreases node,
{
    match node {
        Node::Placeholder(_) => {},
        Node::Leaf(p) => {
            lemma_nearest_of_one(p, ray, span.start);
            assert(node.leaves()[0] == p);
            assert(node.leaves().contains(p));
            assert(steady(p, ray, span.start));
            assert(span == Span { start: span.start, end: span.end });
            assert(p.strike(ray, Span { start: span.start, end: span.end }) == before(
                first_crossing(p, ray, span.start),
                span.end,
            ));
        },
        Node::Branch(tree) => {
            lemma_tree_reports_nearest(*tree, ray, span, shutter);
        },
    }
}

/// A tree built over a list answers every ray as the list does.
///
/// Take any well-formed tree whose items are those of the list, in whatever
/// order and shape construction left them. For a ray whose stretches widen with
/// the slab, and items that are steady and boxed in for it, probing the tree
/// reports the same hit time as scanning the list, and reports no hit in exactly
/// the same cases.
pub proof fn lemma_tree_agrees_with_list<R: Beam, P: Hittable<R>>(
    list: Seq<P>,
    tree: BVH<P>,
    ray: &R,
    span: Span,
    shutter: Span,
)
    requires
        tree.well_formed::<R>(shutter),
        tree.leaves().to_multiset() == list.to_multiset(),
        widening(ray),
        fit_for(list, ray, span.start, shutter),
    ensures
        tree.reports(ray, span) == scan(list, ray, span),
        tree.reports(ray, span) == before(nearest(list, ray, span.start), span.end),
{
    broadcast use vstd::seq_lib::group_to_multiset_ensures;

    let leaves = tree.leaves();
    assert forall|p: P| leaves.contains(p) implies list.contains(p) by {
        assert(leaves.to_multiset().count(p) > 0);
    }
    assert(fit_for(leaves, ray, span.start, shutter));
    lemma_tree_reports_nearest(tree, ray, span, shutter);
    lemma_nearest_ignores_order(leaves, list, ray, span.start);
    lemma_scan_reports_nearest(list, ray, span);
}

/// A list of steady items is steady itself, so lists can be items of lists
/// and of trees.
pub proof fn lemma_list_is_steady<R, P: Hittable<R>>(list: HitList<P>, ray: &R, start: i64)
    requires
        forall|p: P| #[trigger] list.0@.contains(p) ==> steady(p, ray, start),
    ensures
        steady(list, ray, start),
        first_crossing(list, ray, start) == before(nearest(list.0@, ray, start), i64::MAX),
{
    lemma_scan_reports_nearest(list.0@, ray, Span { start, end: i64::MAX });
    assert forall|end: i64| #[trigger]
        list.strike(ray, Span { start, end }) == before(
            first_crossing(list, ray, start),
            end,
        ) by {
        lemma_scan_reports_nearest(list.0@, ray, Span { start, end });
    }
}

/// A well-formed tree over fit items is steady itself, and is hit only where
/// the ray crosses its box: trees can be items of lists and of trees.
pub proof fn lemma_tree_is_fit<R: Beam, P: Hittable<R>>(
    tree: BVH<P>,
    ray: &R,
    start: i64,
    shutter: Span,
)
    requires
        tree.well_formed::<R>(shutter),
        widening(ray),
        fit_for(tree.leaves(), ray, start, shutter),
    ensures
        steady(tree, ray, start),
        boxed_in(tree, ray, start, shutter),
        first_crossing(tree, ray, start) == before(nearest(tree.leaves(), ray, start), i64::MAX),
{
    lemma_tree_reports_nearest(tree, ray, Span { start, end: i64::MAX }, shutter);
    assert forall|end: i64| #[trigger]
        tree.strike(ray, Span { start, end }) == before(
            first_crossing(tree, ray, start),
            end,
        ) by {
        lemma_tree_reports_nearest(tree, ray, Span { start, end }, shutter);
    }
}

} // verus!
