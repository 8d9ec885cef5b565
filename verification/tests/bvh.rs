use rand::rngs::SmallRng;
use rand::{Rng, SeedableRng};
use raytracing::bvh::{Node, BVH};
use raytracing::hit::{Beam, Corner, Hit, HitList, Hittable, Span, AABB};
use raytracing::shape::{select_root, Dummy};
use raytracing::vec3::Axis;

/// Numbers the reals in ascending order; zero gets 0.
fn rank(x: f64) -> i64 {
    let x = if x == 0.0 { 0.0 } else { x };
    let bits = x.to_bits() as i64;
    bits ^ ((((bits >> 63) as u64) >> 1) as i64)
}

fn unrank(r: i64) -> f64 {
    let bits = r ^ ((((r >> 63) as u64) >> 1) as i64);
    f64::from_bits(bits as u64)
}

#[derive(Clone, Debug)]
struct Ray {
    origin: [f64; 3],
    dir: [f64; 3],
}

fn pos(axis: Axis) -> usize {
    match axis {
        Axis::X => 0,
        Axis::Y => 1,
        Axis::Z => 2,
    }
}

impl Beam for Ray {
    fn slab_model(&self, axis: Axis, low: i64, high: i64) -> (i64, i64) {
        self.slab(axis, low, high)
    }

    fn slab(&self, axis: Axis, low: i64, high: i64) -> (i64, i64) {
        let k = pos(axis);
        let inv = 1.0 / self.dir[k];
        let mut t0 = (unrank(low) - self.origin[k]) * inv;
        let mut t1 = (unrank(high) - self.origin[k]) * inv;
        if inv < 0.0 {
            std::mem::swap(&mut t0, &mut t1);
        }
        let t0 = if t0.is_nan() { f64::NEG_INFINITY } else { t0 };
        let t1 = if t1.is_nan() { f64::INFINITY } else { t1 };
        (rank(t0), rank(t1))
    }
}

#[derive(Clone, Debug, PartialEq)]
struct Sphere {
    center: [f64; 3],
    radius: f64,
    id: usize,
}

impl Hittable<Ray> for Sphere {
    type Surface = usize;

    fn strike(&self, ray: &Ray, span: Span) -> Option<i64> {
        self.hit(ray, &span).map(|hit| hit.time)
    }

    fn bounds(&self, shutter: Span) -> Option<AABB> {
        self.bounding_box(&shutter)
    }

    fn hit(&self, ray: &Ray, hit_time: &Span) -> Option<Hit<usize>> {
        let oc: Vec<f64> = (0..3).map(|k| ray.origin[k] - self.center[k]).collect();
        let a: f64 = ray.dir.iter().map(|d| d * d).sum();
        let half_b: f64 = (0..3).map(|k| oc[k] * ray.dir[k]).sum();
        let c: f64 = oc.iter().map(|d| d * d).sum::<f64>() - self.radius * self.radius;
        let disc = half_b * half_b - a * c;
        if disc >= 0.0 {
            let root = disc.sqrt();
            let near = rank((-half_b - root) / a);
            let far = rank((-half_b + root) / a);
            return select_root(near, far, hit_time).map(|t| Hit::new(t, self.id));
        }
        None
    }

    fn bounding_box(&self, _shutter_time: &Span) -> Option<AABB> {
        let c = self.center;
        let r = self.radius;
        Some(AABB::new(
            Corner::new(rank(c[0] - r), rank(c[1] - r), rank(c[2] - r)),
            Corner::new(rank(c[0] + r), rank(c[1] + r), rank(c[2] + r)),
        ))
    }
}

/// Something without a box.
struct Plane;

impl Hittable<Ray> for Plane {
    type Surface = usize;

    fn strike(&self, ray: &Ray, span: Span) -> Option<i64> {
        self.hit(ray, &span).map(|hit| hit.time)
    }

    fn bounds(&self, shutter: Span) -> Option<AABB> {
        self.bounding_box(&shutter)
    }

    fn hit(&self, _ray: &Ray, _hit_time: &Span) -> Option<Hit<usize>> {
        None
    }

    fn bounding_box(&self, _shutter_time: &Span) -> Option<AABB> {
        None
    }
}

fn whole_ray() -> Span {
    Span::new(rank(0.001), rank(f64::INFINITY))
}

fn shutter() -> Span {
    Span::new(rank(0.0), rank(1.0))
}

fn sphere(id: usize, center: [f64; 3], radius: f64) -> Sphere {
    Sphere { center, radius, id }
}

fn scattered_spheres(rng: &mut SmallRng, n: usize) -> Vec<Sphere> {
    (0..n)
        .map(|id| {
            let center = [
                rng.gen_range(-10.0, 10.0),
                rng.gen_range(-10.0, 10.0),
                rng.gen_range(-10.0, 10.0),
            ];
            sphere(id, center, rng.gen_range(0.2, 1.5))
        })
        .collect()
}

fn leaves_of(node: &Node<Sphere>, into: &mut Vec<usize>) {
    match node {
        Node::Placeholder(_) => {}
        Node::Leaf(s) => into.push(s.id),
        Node::Branch(tree) => {
            leaves_of(&tree.left, into);
            leaves_of(&tree.right, into);
        }
    }
}

fn box_of(node: &Node<Sphere>) -> Option<AABB> {
    node.bounding_box::<Ray>(&shutter())
}

fn check_boxes(tree: &BVH<Sphere>) {
    match (box_of(&tree.left), box_of(&tree.right)) {
        (Some(l), Some(r)) => assert_eq!(tree.bound_box, l.surrounding(&r)),
        (None, Some(r)) => {
            assert!(matches!(tree.left, Node::Placeholder(_)));
            assert_eq!(tree.bound_box, r);
        }
        _ => panic!("a side without a box"),
    }
    for side in [&tree.left, &tree.right] {
        if let Node::Branch(sub) = side {
            check_boxes(sub);
        }
    }
}

#[test]
fn rank_keeps_the_order_of_reals() {
    let reals = [f64::NEG_INFINITY, -3.5, -1e-300, 0.0, 1e-300, 0.001, 0.5, 1.0, 1e300, f64::INFINITY];
    for pair in reals.windows(2) {
        assert!(rank(pair[0]) < rank(pair[1]));
    }
    assert_eq!(rank(0.0), 0);
    assert_eq!(rank(-0.0), 0);
    for x in reals {
        assert_eq!(unrank(rank(x)), x);
    }
}

#[test]
fn span_holds_start_but_not_end() {
    let span = Span::new(3, 7);
    assert!(span.holds(3));
    assert!(span.holds(6));
    assert!(!span.holds(7));
    assert!(!span.holds(2));
    assert!(!Span::new(5, 5).holds(5));
}

#[test]
fn surrounding_takes_least_and_greatest_corner() {
    let a = AABB::new(Corner::new(0, 5, -3), Corner::new(4, 9, 2));
    let b = AABB::new(Corner::new(-2, 6, -1), Corner::new(3, 12, 8));
    let hull = a.surrounding(&b);
    assert_eq!(hull.min, Corner::new(-2, 5, -3));
    assert_eq!(hull.max, Corner::new(4, 12, 8));
    assert_eq!(b.surrounding(&a), hull);
    assert_eq!(a.surrounding(&a), a);
}

#[test]
fn corner_is_read_by_axis() {
    let c = Corner::new(1, 2, 3);
    assert_eq!(c.get(Axis::X), 1);
    assert_eq!(c.get(Axis::Y), 2);
    assert_eq!(c.get(Axis::Z), 3);
}

#[test]
fn boxes_compare_by_low_corner() {
    let a = AABB::new(Corner::new(0, 5, -3), Corner::new(4, 9, 2));
    let b = AABB::new(Corner::new(-2, 5, -1), Corner::new(3, 12, 8));
    assert_eq!(a.compare_axis(&b, Axis::X), 1);
    assert_eq!(a.compare_axis(&b, Axis::Y), 0);
    assert_eq!(a.compare_axis(&b, Axis::Z), -1);
}

#[test]
fn slab_test_hits_box_ahead_and_misses_box_behind() {
    let ray = Ray { origin: [0.0, 0.0, 0.0], dir: [0.0, 0.0, -1.0] };
    let ahead = sphere(0, [0.0, 0.0, -5.0], 1.0).bounding_box(&shutter()).unwrap();
    let behind = sphere(1, [0.0, 0.0, 5.0], 1.0).bounding_box(&shutter()).unwrap();
    let aside = sphere(2, [3.0, 0.0, -5.0], 1.0).bounding_box(&shutter()).unwrap();
    assert!(ahead.hit(&ray, &whole_ray()));
    assert!(!behind.hit(&ray, &whole_ray()));
    assert!(!aside.hit(&ray, &whole_ray()));
    // The box ahead starts at t = 4: a span that ends there misses it.
    assert!(!ahead.hit(&ray, &Span::new(rank(0.001), rank(4.0))));
    assert!(ahead.hit(&ray, &Span::new(rank(0.001), rank(4.5))));
}

#[test]
fn sphere_is_hit_at_its_near_side() {
    let ray = Ray { origin: [0.0, 0.0, 0.0], dir: [0.0, 0.0, -1.0] };
    let ball = sphere(7, [0.0, 0.0, -1.0], 0.5);
    let hit = ball.hit(&ray, &whole_ray()).unwrap();
    assert_eq!(unrank(hit.time), 0.5);
    assert_eq!(hit.surface, 7);
    // Outward normal at the point of the hit.
    let point = [0.0, 0.0, -unrank(hit.time)];
    let normal: Vec<f64> = (0..3).map(|k| (point[k] - ball.center[k]) / ball.radius).collect();
    assert_eq!(normal, vec![0.0, 0.0, 1.0]);
}

#[test]
fn root_selection_prefers_near_root_inside_span() {
    let span = Span::new(10, 20);
    assert_eq!(select_root(12, 15, &span), Some(12));
    assert_eq!(select_root(5, 15, &span), Some(15));
    assert_eq!(select_root(10, 15, &span), Some(10));
    assert_eq!(select_root(5, 20, &span), None);
    assert_eq!(select_root(5, 9, &span), None);
    assert_eq!(select_root(20, 25, &span), None);
    assert_eq!(select_root(25, 15, &span), Some(15));
}

#[test]
fn placeholder_is_never_hit_and_has_no_box() {
    let ray = Ray { origin: [0.0, 0.0, 0.0], dir: [1.0, 0.0, 0.0] };
    let nothing = Dummy {};
    assert!(Hittable::<Ray>::hit(&nothing, &ray, &whole_ray()).is_none());
    assert!(Hittable::<Ray>::bounding_box(&nothing, &shutter()).is_none());
}

#[test]
fn list_reports_closest_hit_whatever_the_order() {
    let ray = Ray { origin: [0.0, 0.0, 0.0], dir: [0.0, 0.0, -1.0] };
    let near = sphere(0, [0.0, 0.0, -3.0], 1.0);
    let far = sphere(1, [0.0, 0.0, -8.0], 1.0);
    let off = sphere(2, [5.0, 0.0, -3.0], 1.0);
    for order in [[0, 1, 2], [1, 0, 2], [2, 1, 0], [1, 2, 0]] {
        let mut list = HitList::new();
        for k in order {
            list.push([near.clone(), far.clone(), off.clone()][k].clone());
        }
        let hit = list.hit(&ray, &whole_ray()).unwrap();
        assert_eq!(unrank(hit.time), 2.0);
        assert_eq!(hit.surface, 0);
    }
    let mut list = HitList::new();
    list.push(near);
    list.push(far);
    // A span that ends before the near sphere sees nothing.
    assert!(list.hit(&ray, &Span::new(rank(0.001), rank(1.5))).is_none());
    // A span that starts inside the near sphere sees its far side first.
    let hit = list.hit(&ray, &Span::new(rank(3.0), rank(f64::INFINITY))).unwrap();
    assert_eq!(unrank(hit.time), 4.0);
}

#[test]
fn empty_list_has_no_hit_and_no_box() {
    let ray = Ray { origin: [0.0, 0.0, 0.0], dir: [0.0, 0.0, -1.0] };
    let list: HitList<Sphere> = HitList::new();
    assert!(list.hit(&ray, &whole_ray()).is_none());
    assert!(list.bounding_box(&shutter()).is_none());
}

#[test]
fn list_box_is_hull_of_item_boxes() {
    let mut list = HitList::new();
    list.push(sphere(0, [0.0, 0.0, 0.0], 1.0));
    list.push(sphere(1, [4.0, -2.0, 1.0], 2.0));
    list.push(sphere(2, [-3.0, 1.0, 0.5], 0.5));
    let hull = list.bounding_box(&shutter()).unwrap();
    assert_eq!(hull.min, Corner::new(rank(-3.5), rank(-4.0), rank(-1.0)));
    assert_eq!(hull.max, Corner::new(rank(6.0), rank(1.5), rank(3.0)));
}

#[test]
fn list_with_unboxed_item_has_no_box() {
    let mut list = HitList::new();
    list.push(Plane);
    assert!(list.bounding_box(&shutter()).is_none());
    let mut rng = SmallRng::seed_from_u64(1);
    assert!(BVH::checked_from_list::<Ray>(list, &shutter(), &mut rng).is_none());
}

#[test]
fn tree_over_nothing_is_refused() {
    let mut rng = SmallRng::seed_from_u64(1);
    let list: HitList<Sphere> = HitList::new();
    assert!(BVH::checked_from_list::<Ray>(list, &shutter(), &mut rng).is_none());
}

#[test]
fn tree_over_one_item_puts_it_right_of_placeholder() {
    let mut rng = SmallRng::seed_from_u64(1);
    let mut list = HitList::new();
    let ball = sphere(0, [1.0, 2.0, 3.0], 1.0);
    list.push(ball.clone());
    let tree = BVH::from_list::<Ray>(list, &shutter(), &mut rng);
    assert!(matches!(tree.left, Node::Placeholder(_)));
    assert!(matches!(&tree.right, Node::Leaf(s) if *s == ball));
    assert_eq!(Some(tree.bound_box), ball.bounding_box(&shutter()));
}

#[test]
fn tree_over_two_items_puts_last_item_left() {
    let mut rng = SmallRng::seed_from_u64(1);
    let mut list = HitList::new();
    list.push(sphere(0, [1.0, 2.0, 3.0], 1.0));
    list.push(sphere(1, [-4.0, 0.0, 2.0], 2.0));
    let tree = BVH::from_list::<Ray>(list, &shutter(), &mut rng);
    assert!(matches!(&tree.left, Node::Leaf(s) if s.id == 1));
    assert!(matches!(&tree.right, Node::Leaf(s) if s.id == 0));
    assert_eq!(tree.bound_box.min, Corner::new(rank(-6.0), rank(-2.0), rank(0.0)));
    assert_eq!(tree.bound_box.max, Corner::new(rank(2.0), rank(3.0), rank(4.0)));
}

#[test]
fn tree_keeps_every_item_once_and_halves_them() {
    for seed in 0..5 {
        let mut rng = SmallRng::seed_from_u64(seed);
        let spheres = scattered_spheres(&mut rng, 37);
        let tree = BVH::from_list::<Ray>(HitList(spheres), &shutter(), &mut rng);
        let mut ids = Vec::new();
        leaves_of(&Node::Branch(Box::new(tree)), &mut ids);
        ids.sort();
        assert_eq!(ids, (0..37).collect::<Vec<usize>>());
    }
    let mut rng = SmallRng::seed_from_u64(9);
    let spheres = scattered_spheres(&mut rng, 7);
    let tree = BVH::from_list::<Ray>(HitList(spheres), &shutter(), &mut rng);
    let (mut left, mut right) = (Vec::new(), Vec::new());
    leaves_of(&tree.left, &mut left);
    leaves_of(&tree.right, &mut right);
    assert_eq!((left.len(), right.len()), (3, 4));
    check_boxes(&tree);
}

#[test]
fn tree_parts_items_along_some_axis() {
    let mut rng = SmallRng::seed_from_u64(3);
    let spheres = scattered_spheres(&mut rng, 20);
    let tree = BVH::from_list::<Ray>(HitList(spheres.clone()), &shutter(), &mut rng);
    let (mut left, mut right) = (Vec::new(), Vec::new());
    leaves_of(&tree.left, &mut left);
    leaves_of(&tree.right, &mut right);
    let low = |id: usize, k: usize| spheres[id].center[k] - spheres[id].radius;
    let parted = (0..3).any(|k| {
        left.iter().all(|&l| right.iter().all(|&r| low(l, k) <= low(r, k)))
    });
    assert!(parted);
}

#[test]
fn tree_agrees_with_list_on_every_ray() {
    for seed in 0..4 {
        let mut rng = SmallRng::seed_from_u64(100 + seed);
        let spheres = scattered_spheres(&mut rng, 60);
        let list = HitList(spheres.clone());
        let tree = BVH::from_list::<Ray>(HitList(spheres), &shutter(), &mut rng);
        let (mut hits, mut misses) = (0, 0);
        for _ in 0..500 {
            let ray = Ray {
                origin: [rng.gen_range(-12.0, 12.0), rng.gen_range(-12.0, 12.0), 15.0],
                dir: [rng.gen_range(-1.0, 1.0), rng.gen_range(-1.0, 1.0), -1.0],
            };
            let flat = list.hit(&ray, &whole_ray());
            let deep = tree.hit(&ray, &whole_ray());
            match (flat, deep) {
                (Some(a), Some(b)) => {
                    assert_eq!(a.time, b.time);
                    hits += 1;
                }
                (None, None) => misses += 1,
                _ => panic!("the tree and the list disagree on whether the ray hits"),
            }
        }
        assert!(hits > 0 && misses > 0);
    }
}

#[test]
fn tree_respects_the_span() {
    let mut rng = SmallRng::seed_from_u64(5);
    let ray = Ray { origin: [0.0, 0.0, 0.0], dir: [0.0, 0.0, -1.0] };
    let mut list = HitList::new();
    list.push(sphere(0, [0.0, 0.0, -3.0], 1.0));
    list.push(sphere(1, [0.0, 0.0, -8.0], 1.0));
    list.push(sphere(2, [0.0, 0.0, -13.0], 1.0));
    let tree = BVH::from_list::<Ray>(list, &shutter(), &mut rng);
    assert_eq!(unrank(tree.hit(&ray, &whole_ray()).unwrap().time), 2.0);
    assert_eq!(tree.probe(&ray, &whole_ray()).unwrap().surface, 0);
    let later = Span::new(rank(5.0), rank(f64::INFINITY));
    assert_eq!(unrank(tree.hit(&ray, &later).unwrap().time), 7.0);
    let between = Span::new(rank(4.5), rank(6.5));
    assert!(tree.hit(&ray, &between).is_none());
    assert_eq!(Hittable::<Ray>::bounding_box(&tree, &shutter()), Some(tree.bound_box));
}
