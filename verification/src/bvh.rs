//! The bounding-volume tree: a binary tree of boxes over the things to hit.
use crate::hit::{time_of, Beam, Hit, HitList, Hittable, Span, AABB};
use crate::shape::Dummy;
use crate::vec3::Axis;
use rand::rngs::SmallRng;
use vstd::multiset::Multiset;
use vstd::prelude::*;

verus! {

/// One side of a tree node.
pub enum Node<P> {
    /// Nothing: the empty side of a node over a single item.
    Placeholder(Dummy),
    /// One of the items the tree was built from.
    Leaf(P),
    /// A subtree.
    Branch(Box<BVH<P>>),
}

/// Bounding-volume hierarchy: a box and what lies inside it, in two parts.
pub struct BVH<P> {
    pub bound_box: AABB,
    pub left: Node<P>,
    pub right: Node<P>,
}

impl<P> Node<P> {
    /// The items under this side, from left to right.
    pub open spec fn leaves(self) -> Seq<P>
        decreases self,
    {
        match self {
            Node::Placeholder(_) => Seq::empty(),
            Node::Leaf(p) => seq![p],
            Node::Branch(tree) => tree.leaves(),
        }
    }

    /// The box of this side for a shutter interval, if it has one.
    pub open spec fn bounds<R>(self, shutter: Span) -> Option<AABB> where P: Hittable<R> {
        match self {
            Node::Placeholder(_) => None,
            Node::Leaf(p) => p.bounds(shutter),
            Node::Branch(tree) => Some(tree.bound_box),
        }
    }

    /// Every box below this side is the hull of what it holds.
    pub open spec fn well_formed<R>(self, shutter: Span) -> bool where P: Hittable<R>
        decreases self,
    {
        match self {
            Node::Placeholder(_) => true,
            Node::Leaf(_) => true,
            Node::Branch(tree) => tree.well_formed::<R>(shutter),
        }
    }

    /// The time of the hit that probing this side reports.
    pub open spec fn reports<R: Beam>(self, ray: &R, span: Span) -> Option<i64> where
        P: Hittable<R>,

        decreases self,
    {
        match self {
            Node::Placeholder(_) => None,
            Node::Leaf(p) => p.strike(ray, span),
            Node::Branch(tree) => tree.reports(ray, span),
        }
    }
}

impl<P> BVH<P> {
    /// The items in the tree, from left to right.
    pub open spec fn leaves(self) -> Seq<P>
        decreases self,
    {
        self.left.leaves() + self.right.leaves()
    }

    /// Every box in the tree is the hull of the boxes of its two sides, or, where
    /// the left side is the placeholder, the box of the right side.
    pub open spec fn well_formed<R>(self, shutter: Span) -> bool where P: Hittable<R>
        decreases self,
    {
        &&& self.left.well_formed::<R>(shutter)
        &&& self.right.well_formed::<R>(shutter)
        &&& match self.left {
            Node::Placeholder(_) => self.right.bounds::<R>(shutter) == Some(self.bound_box),
            _ => match (self.left.bounds::<R>(shutter), self.right.bounds::<R>(shutter)) {
                (Some(l), Some(r)) => self.bound_box == l.hull(r),
                _ => false,
            },
        }
    }

    /// The time of the hit that probing the tree reports: nothing if the ray
    /// misses the box; else the left side is probed, then the right side in what
    /// the left hit has left of the span, and a hit on the right wins.
    pub open spec fn reports<R: Beam>(self, ray: &R, span: Span) -> Option<i64> where
        P: Hittable<R>,

        decreases self,
    {
        if !self.bound_box.crossed_by(ray, span) {
            None
        } else {
            let left = self.left.reports(ray, span);
            let rest = match left {
                Some(t) => span.until(t),
                None => span,
            };
            match self.right.reports(ray, rest) {
                Some(t) => Some(t),
                None => left,
            }
        }
    }

    pub fn new(bound_box: AABB, left: Node<P>, right: Node<P>) -> (tree: BVH<P>)
        ensures
            tree.bound_box == bound_box,
            tree.left == left,
            tree.right == right,
    {
        BVH { bound_box, left, right }
    }
}

impl<P> Node<P> {
    /// The box of this side, if it has one.
    pub fn bounding_box<R>(&self, shutter_time: &Span) -> (bound: Option<AABB>) where
        P: Hittable<R>,

        ensures
            bound == self.bounds::<R>(*shutter_time),
    {
        match self {
            Node::Placeholder(_) => None,
            Node::Leaf(p) => p.bounding_box(shutter_time),
            Node::Branch(tree) => Some(tree.bound_box),
        }
    }

    /// Probes this side with the ray.
    pub fn hit<R: Beam>(&self, ray: &R, hit_time: &Span) -> (found: Option<Hit<P::Surface>>) where
        P: Hittable<R>,

        ensures
            time_of(found) == self.reports(ray, *hit_time),
            found is Some ==> hit_time.contains(found.unwrap().time as int),
        decreases self,
    {
        match self {
            Node::Placeholder(nothing) => {
                let _ = nothing.hit(ray, hit_time);
                None
            },
            Node::Leaf(p) => p.hit(ray, hit_time),
            Node::Branch(tree) => tree.probe(ray, hit_time),
        }
    }
}

impl<P> BVH<P> {
    /// The node over two sides that both have a box: its own box is their hull.
    pub fn from<R>(left: Node<P>, right: Node<P>, shutter_time: &Span) -> (tree: BVH<P>) where
        P: Hittable<R>,

        requires
            left.bounds::<R>(*shutter_time) is Some,
            right.bounds::<R>(*shutter_time) is Some,
        ensures
            tree.left == left,
            tree.right == right,
            tree.bound_box == left.bounds::<R>(*shutter_time).unwrap().hull(
                right.bounds::<R>(*shutter_time).unwrap(),
            ),
    {
        let l_box = left.bounding_box::<R>(shutter_time);
        let r_box = right.bounding_box::<R>(shutter_time);
        let bound_box = l_box.unwrap().surrounding(&r_box.unwrap());
        BVH::new(bound_box, left, right)
    }

    /// Probes the tree with the ray.
    pub fn probe<R: Beam>(&self, ray: &R, hit_time: &Span) -> (found: Option<Hit<P::Surface>>) where
        P: Hittable<R>,

        ensures
            time_of(found) == self.reports(ray, *hit_time),
            found is Some ==> hit_time.contains(found.unwrap().time as int),
        decreases self,
    {
        if !self.bound_box.hit(ray, hit_time) {
            return None;
        }
        let mut range = *hit_time;
        let hit_left = self.left.hit(ray, &range);
        match &hit_left {
            Some(hit) => {
                range.end = hit.time;
            },
            None => {},
        }
        let hit_right = self.right.hit(ray, &range);
        if hit_right.is_some() {
            return hit_right;
        }
        hit_left
    }
}

/// The rank at which the box of `p` starts along `axis`.
pub open spec fn key_of<R, P: Hittable<R>>(p: P, axis: Axis, shutter: Span) -> i64 {
    p.bounds(shutter).unwrap().min.along(axis)
}

/// Every item has a box.
pub open spec fn boundable<R, P: Hittable<R>>(items: Seq<P>, shutter: Span) -> bool {
    forall|p: P| items.contains(p) ==> (#[trigger] p.bounds(shutter)) is Some
}

/// The boxes of the items start in ascending order along `axis`.
pub open spec fn ascending<R, P: Hittable<R>>(items: Seq<P>, axis: Axis, shutter: Span) -> bool {
    forall|i: int, j: int|
        0 <= i < j < items.len() ==> key_of::<R, P>(#[trigger] items[i], axis, shutter) <= key_of::<
            R,
            P,
        >(#[trigger] items[j], axis, shutter)
}

/// No box of `low` starts after a box of `high` along `axis`.
pub open spec fn parted<R, P: Hittable<R>>(
    low: Seq<P>,
    high: Seq<P>,
    axis: Axis,
    shutter: Span,
) -> bool {
    forall|p: P, q: P|
        low.contains(p) && high.contains(q) ==> key_of::<R, P>(p, axis, shutter) <= key_of::<R, P>(
            q,
            axis,
            shutter,
        )
}

impl<P> BVH<P> {
    /// How construction lays a tree out: a single item sits on the right of a
    /// placeholder, two items sit side by side, and more are halved between two
    /// subtrees, the left one taking the smaller half, so that along some axis no
    /// box on the left starts after one on the right.
    pub open spec fn arranged<R>(self, shutter: Span) -> bool where P: Hittable<R>
        decreases self,
    {
        match (self.left, self.right) {
            (Node::Placeholder(_), Node::Leaf(_)) => true,
            (Node::Leaf(_), Node::Leaf(_)) => true,
            (Node::Branch(l), Node::Branch(r)) => {
                &&& l.arranged::<R>(shutter)
                &&& r.arranged::<R>(shutter)
                &&& l.leaves().len() + r.leaves().len() > 2
                &&& l.leaves().len() == (l.leaves().len() + r.leaves().len()) / 2
                &&& exists|axis: Axis| parted::<R, P>(l.leaves(), r.leaves(), axis, shutter)
            },
            _ => false,
        }
    }

    /// Builds the tree over the items of a list.
    ///
    /// The list must not be empty and every item must have a box: the tree has
    /// nothing to store for an item without one.
    pub fn from_list<R>(hitlist: HitList<P>, shutter_time: &Span, rng: &mut SmallRng) -> (tree: BVH<
        P,
    >) where P: Hittable<R>
        requires
            hitlist.0@.len() > 0,
            boundable::<R, P>(hitlist.0@, *shutter_time),
        ensures
            tree.leaves().to_multiset() == hitlist.0@.to_multiset(),
            tree.well_formed::<R>(*shutter_time),
            tree.arranged::<R>(*shutter_time),
            hitlist.0@.len() == 1 ==> tree.right == Node::Leaf(hitlist.0@[0]),
            hitlist.0@.len() == 2 ==> tree.left == Node::Leaf(hitlist.0@[1]) && tree.right
                == Node::Leaf(hitlist.0@[0]),
    {
        Self::inner_list::<R>(hitlist.0, shutter_time, rng)
    }

    /// Builds the tree over a list if it can be built: `None` for an empty list
    /// and for one that holds an item without a box.
    pub fn checked_from_list<R>(
        hitlist: HitList<P>,
        shutter_time: &Span,
        rng: &mut SmallRng,
    ) -> (built: Option<BVH<P>>) where P: Hittable<R>
        ensures
            built is Some <==> hitlist.0@.len() > 0 && boundable::<R, P>(
                hitlist.0@,
                *shutter_time,
            ),
            built is Some ==> {
                let tree = built.unwrap();
                &&& tree.leaves().to_multiset() == hitlist.0@.to_multiset()
                &&& tree.well_formed::<R>(*shutter_time)
                &&& tree.arranged::<R>(*shutter_time)
                &&& hitlist.0@.len() == 1 ==> tree.right == Node::Leaf(hitlist.0@[0])
                &&& hitlist.0@.len() == 2 ==> tree.left == Node::Leaf(hitlist.0@[1])
                    && tree.right == Node::Leaf(hitlist.0@[0])
            },
    {
        if hitlist.0.len() == 0 {
            return None;
        }
        let mut i: usize = 0;
        while i < hitlist.0.len()
            invariant
                i <= hitlist.0@.len(),
                forall|k: int| 0 <= k < i ==> (#[trigger] hitlist.0@[k]).bounds(*shutter_time) is Some,
            decreases hitlist.0@.len() - i,
        {
            if hitlist.0[i].bounding_box(shutter_time).is_none() {
                assert(hitlist.0@.contains(hitlist.0@[i as int]));
                return None;
            }
            i += 1;
        }
        Some(Self::from_list::<R>(hitlist, shutter_time, rng))
    }

    fn inner_list<R>(hitlist: Vec<P>, shutter_time: &Span, rng: &mut SmallRng) -> (tree: BVH<
        P,
    >) where P: Hittable<R>
        requires
            hitlist@.len() > 0,
            boundable::<R, P>(hitlist@, *shutter_time),
        ensures
            tree.leaves().to_multiset() == hitlist@.to_multiset(),
            tree.leaves().len() == hitlist@.len(),
            tree.well_formed::<R>(*shutter_time),
            tree.arranged::<R>(*shutter_time),
            hitlist@.len() == 1 ==> tree.right == Node::Leaf(hitlist@[0]),
            hitlist@.len() == 2 ==> tree.left == Node::Leaf(hitlist@[1]) && tree.right
                == Node::Leaf(hitlist@[0]),
        decreases hitlist@.len(),
    {
        broadcast use vstd::seq_lib::group_to_multiset_ensures;

        let ghost given = hitlist@;
        let mut hitlist = hitlist;
        if hitlist.len() == 1 {
            let right = hitlist.pop().unwrap();
            proof {
                assert(given.contains(right)) by {
                    assert(given[0] == right);
                }
                assert(seq![right] =~= given);
                assert(Seq::<P>::empty() + seq![right] =~= seq![right]);
            }
            let bound_box = right.bounding_box(shutter_time).unwrap();
            return BVH::new(bound_box, Node::Placeholder(Dummy {  }), Node::Leaf(right));
        }
        if hitlist.len() == 2 {
            let first = hitlist.pop().unwrap();
            let second = hitlist.pop().unwrap();
            proof {
                assert(given.contains(first)) by {
                    assert(given[1] == first);
                }
                assert(given.contains(second)) by {
                    assert(given[0] == second);
                }
                assert(seq![first] + seq![second] =~= given.reverse());
                given.lemma_reverse_to_multiset();
            }
            return BVH::from::<R>(Node::Leaf(first), Node::Leaf(second), shutter_time);
        }
        let axis = Axis::sample(rng);
        let mut low = sort_along::<R, P>(hitlist, axis, shutter_time);
        let ghost sorted = low@;
        let high = low.split_off(low.len() / 2);
        proof {
            assert(low@ + high@ =~= sorted);
            vstd::seq_lib::lemma_multiset_commutative(low@, high@);
            assert forall|p: P| low@.contains(p) implies sorted.contains(p) by {
                let i = choose|i: int| 0 <= i < low@.len() && low@[i] == p;
                assert(sorted[i] == p);
            }
            assert forall|p: P| high@.contains(p) implies sorted.contains(p) by {
                let i = choose|i: int| 0 <= i < high@.len() && high@[i] == p;
                assert(sorted[low@.len() + i] == p);
            }
            assert forall|p: P| sorted.contains(p) implies given.contains(p) by {
                assert(sorted.to_multiset().count(p) > 0);
            }
            assert(parted::<R, P>(low@, high@, axis, *shutter_time)) by {
                assert forall|p: P, q: P| low@.contains(p) && high@.contains(q) implies key_of::<
                    R,
                    P,
                >(p, axis, *shutter_time) <= key_of::<R, P>(q, axis, *shutter_time) by {
                    let i = choose|i: int| 0 <= i < low@.len() && low@[i] == p;
                    let j = choose|j: int| 0 <= j < high@.len() && high@[j] == q;
                    assert(sorted[i] == p);
                    assert(sorted[low@.len() + j] == q);
                }
            }
        }
        let ghost low_items = low@;
        let ghost high_items = high@;
        let left = Self::inner_list::<R>(low, shutter_time, rng);
        let right = Self::inner_list::<R>(high, shutter_time, rng);
        proof {
            vstd::seq_lib::lemma_multiset_commutative(left.leaves(), right.leaves());
            assert forall|p: P, q: P|
                left.leaves().contains(p) && right.leaves().contains(q) implies key_of::<R, P>(
                p,
                axis,
                *shutter_time,
            ) <= key_of::<R, P>(q, axis, *shutter_time) by {
                assert(left.leaves().to_multiset().count(p) > 0);
                assert(right.leaves().to_multiset().count(q) > 0);
                assert(low_items.contains(p));
                assert(high_items.contains(q));
            }
            assert(parted::<R, P>(left.leaves(), right.leaves(), axis, *shutter_time));
        }
        BVH::from::<R>(Node::Branch(Box::new(left)), Node::Branch(Box::new(right)), shutter_time)
    }
}

/// Sorts the items by where their boxes start along `axis`, by insertion.
fn sort_along<R, P: Hittable<R>>(items: Vec<P>, axis: Axis, shutter_time: &Span) -> (sorted: Vec<P>)
    requires
        boundable::<R, P>(items@, *shutter_time),
    ensures
        sorted@.to_multiset() == items@.to_multiset(),
        sorted@.len() == items@.len(),
        ascending::<R, P>(sorted@, axis, *shutter_time),
{
    broadcast use vstd::seq_lib::group_to_multiset_ensures;
    broadcast use vstd::multiset::group_multiset_axioms;

    let ghost given = items@;
    let mut items = items;
    let mut sorted: Vec<P> = Vec::new();
    proof {
        assert(sorted@.to_multiset() =~= Multiset::<P>::empty());
        assert(Multiset::<P>::empty().add(given.to_multiset()) =~= given.to_multiset());
    }
    while items.len() > 0
        invariant
            boundable::<R, P>(given, *shutter_time),
            sorted@.to_multiset().add(items@.to_multiset()) == given.to_multiset(),
            sorted@.len() + items@.len() == given.len(),
            forall|p: P| sorted@.contains(p) ==> given.contains(p),
            forall|i: int| 0 <= i < items@.len() ==> given.contains(#[trigger] items@[i]),
            ascending::<R, P>(sorted@, axis, *shutter_time),
        decreases items@.len(),
    {
        let ghost before = items@;
        let ghost placed = sorted@;
        let item = items.pop().unwrap();
        proof {
            assert(before =~= items@.push(item));
            assert(before[before.len() - 1] == item);
            assert(given.contains(item));
            assert forall|i: int| 0 <= i < items@.len() implies given.contains(
                #[trigger] items@[i],
            ) by {
                assert(items@[i] == before[i]);
            }
        }
        let item_box = item.bounding_box(shutter_time).unwrap();
        let ghost key = item_box.min.along(axis);
        let mut at: usize = 0;
        let mut searching = true;
        while searching && at < sorted.len()
            invariant
                at <= sorted@.len(),
                sorted@ == placed,
                key == item_box.min.along(axis),
                !searching ==> at < placed.len() && key < key_of::<R, P>(
                    placed[at as int],
                    axis,
                    *shutter_time,
                ),
                boundable::<R, P>(given, *shutter_time),
                forall|p: P| placed.contains(p) ==> given.contains(p),
                forall|i: int|
                    0 <= i < at ==> key_of::<R, P>(#[trigger] placed[i], axis, *shutter_time)
                        <= key,
            decreases sorted@.len() - at + (if searching { 1int } else { 0int }),
        {
            proof {
                assert(placed.contains(placed[at as int]));
            }
            let other = sorted[at].bounding_box(shutter_time).unwrap();
            if other.compare_axis(&item_box, axis) > 0 {
                searching = false;
            } else {
                at += 1;
            }
        }
        sorted.insert(at, item);
        proof {
            assert forall|p: P| sorted@.contains(p) implies given.contains(p) by {
                let i = choose|i: int| 0 <= i < sorted@.len() && sorted@[i] == p;
                if i < at {
                    assert(placed[i] == p);
                } else if i > at {
                    assert(placed[i - 1] == p);
                }
            }
            vstd::seq_lib::to_multiset_insert(placed, at as int, item);
            vstd::seq_lib::to_multiset_build(items@, item);
            assert(sorted@.to_multiset() == placed.to_multiset().insert(item));
            assert(before.to_multiset() == items@.to_multiset().insert(item));
            assert(sorted@.to_multiset().add(items@.to_multiset()) =~= given.to_multiset());
            assert forall|i: int, j: int| 0 <= i < j < sorted@.len() implies key_of::<R, P>(
                #[trigger] sorted@[i],
                axis,
                *shutter_time,
            ) <= key_of::<R, P>(#[trigger] sorted@[j], axis, *shutter_time) by {
                if i < at && j > at {
                    assert(sorted@[j] == placed[j - 1]);
                    assert(sorted@[i] == placed[i]);
                } else if i == at {
                    assert(sorted@[j] == placed[j - 1]);
                } else if j == at {
                    assert(sorted@[i] == placed[i]);
                } else if j < at {
                    assert(sorted@[i] == placed[i]);
                    assert(sorted@[j] == placed[j]);
                } else {
                    assert(sorted@[i] == placed[i - 1]);
                    assert(sorted@[j] == placed[j - 1]);
                }
            }
        }
    }
    proof {
        assert(items@.to_multiset() =~= Multiset::<P>::empty());
        assert(sorted@.to_multiset().add(Multiset::<P>::empty()) =~= sorted@.to_multiset());
    }
    sorted
}

/// Two to the power of `k`.
pub open spec fn two_to(k: nat) -> nat
    decreases k,
{
    if k == 0 {
        1
    } else {
        2 * two_to((k - 1) as nat)
    }
}

impl<P> Node<P> {
    /// The number of boxes a ray passes on the longest way down this side.
    pub open spec fn height(self) -> nat
        decreases self,
    {
        match self {
            Node::Placeholder(_) => 0,
            Node::Leaf(_) => 0,
            Node::Branch(tree) => tree.height(),
        }
    }
}

impl<P> BVH<P> {
    /// The number of boxes a ray passes on the longest way down the tree.
    pub open spec fn height(self) -> nat
        decreases self,
    {
        let (l, r) = (self.left.height(), self.right.height());
        1 + if l >= r {
            l
        } else {
            r
        }
    }
}

/// A tree as construction lays it out is no higher than the halving of its
/// items asks for: a tree of height `h` holds at least `2^(h-1)` items, and more
/// than that if it holds more than one.
pub proof fn lemma_arranged_tree_is_low<R, P: Hittable<R>>(tree: BVH<P>, shutter: Span)
    requires
        tree.arranged::<R>(shutter),
    ensures
        tree.height() >= 1,
        tree.leaves().len() >= 1,
        two_to((tree.height() - 1) as nat) <= tree.leaves().len(),
        tree.leaves().len() >= 2 ==> two_to((tree.height() - 1) as nat) < tree.leaves().len(),
    decreases tree,
{
    reveal_with_fuel(two_to, 2);
    match (tree.left, tree.right) {
        (Node::Branch(l), Node::Branch(r)) => {
            lemma_arranged_tree_is_low::<R, P>(*l, shutter);
            lemma_arranged_tree_is_low::<R, P>(*r, shutter);
            let (hl, hr) = (l.height(), r.height());
            let (nl, nr) = (l.leaves().len(), r.leaves().len());
            let n = tree.leaves().len();
            assert(n == nl + nr);
            assert(nl == n / 2);
            assert(nr >= 2);
            assert(2 * nr <= n + 1);
            assert(2 * nl <= n);
            if hl >= hr {
                assert(tree.height() == 1 + hl);
                assert(two_to(hl) == 2 * two_to((hl - 1) as nat));
                if nl >= 2 {
                    assert(two_to(hl) < n);
                } else {
                    assert(two_to((hl - 1) as nat) <= 1);
                }
            } else {
                assert(tree.height() == 1 + hr);
                assert(two_to(hr) == 2 * two_to((hr - 1) as nat));
            }
        },
        _ => {
            assert(tree.height() == 1);
        },
    }
}

impl<R: Beam, P: Hittable<R>> Hittable<R> for BVH<P> {
    type Surface = P::Surface;

    open spec fn strike(&self, ray: &R, span: Span) -> Option<i64> {
        self.reports(ray, span)
    }

    open spec fn bounds(&self, shutter: Span) -> Option<AABB> {
        Some(self.bound_box)
    }

    fn hit(&self, ray: &R, hit_time: &Span) -> (found: Option<Hit<P::Surface>>) {
        self.probe(ray, hit_time)
    }

    fn bounding_box(&self, _shutter_time: &Span) -> (bound: Option<AABB>) {
        Some(self.bound_box)
    }
}

} // verus!
