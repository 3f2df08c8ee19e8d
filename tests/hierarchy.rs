use rays::aabb::Aabb;
use rays::bvh::{BvhError, BvhNode};
use rays::scan::hit_list;

/// Distance keys below this one are behind the ray's start.
const T_MIN: u64 = 10;

struct Lcg(u64);

impl Lcg {
    fn next(&mut self, bound: u64) -> u64 {
        self.0 = self
            .0
            .wrapping_mul(6364136223846793005)
            .wrapping_add(1442695040888963407);
        (self.0 >> 33) % bound
    }
}

/// Slabs along the x axis, met by a ray that starts at x = 0 and runs along
/// +x at y = z = 100; a slab is met at its minimum x where it spans the ray.
fn scene(n: usize, seed: u64) -> Vec<Aabb> {
    let mut rng = Lcg(seed);
    let mut boxes = Vec::new();
    for _ in 0..n {
        let x0 = rng.next(1000);
        let y0 = rng.next(150);
        let z0 = rng.next(150);
        boxes.push(Aabb::new(
            [x0, y0, z0],
            [x0 + 1 + rng.next(50), y0 + 1 + rng.next(60), z0 + 1 + rng.next(60)],
        ));
    }
    boxes
}

fn spans_ray(b: &Aabb) -> bool {
    b.minimum[1] <= 100 && 100 <= b.maximum[1] && b.minimum[2] <= 100 && 100 <= b.maximum[2]
}

fn prim_hit<'a>(boxes: &'a [Aabb]) -> impl Fn(usize, u64) -> Option<(u64, usize)> + 'a {
    move |p, t| {
        let b = &boxes[p];
        if spans_ray(b) && b.minimum[0] > T_MIN && b.minimum[0] < t {
            Some((b.minimum[0], p))
        } else {
            None
        }
    }
}

fn box_hit(b: Aabb, t: u64) -> bool {
    spans_ray(&b) && b.minimum[0] < t && b.maximum[0] > T_MIN
}

fn check_shape(node: &BvhNode, boxes: &[Aabb]) -> usize {
    match node {
        BvhNode::Leaf { prim, .. } => {
            assert!(*prim < boxes.len());
            1
        }
        BvhNode::Inner { axis, left, right, .. } => {
            let nl = check_shape(left, boxes);
            let nr = check_shape(right, boxes);
            assert_eq!(nl, (nl + nr) / 2);
            for i in left.primitives() {
                for j in right.primitives() {
                    assert!(boxes[i].minimum[*axis] <= boxes[j].minimum[*axis]);
                }
            }
            nl + nr
        }
    }
}

fn agree_with_brute_force(n: usize, seed: u64) {
    let boxes = scene(n, seed);
    let tree = BvhNode::new(&boxes).unwrap();
    let mut prims = tree.primitives();
    prims.sort();
    assert_eq!(prims, (0..n).collect::<Vec<_>>());
    assert_eq!(check_shape(&tree, &boxes), n);
    let hit = prim_hit(&boxes);
    for t_max in [0, T_MIN, 11, 50, 200, 500, 999, 1100, u64::MAX] {
        let by_tree = tree.hit(t_max, &box_hit, &hit);
        let by_list = hit_list(n, t_max, &hit);
        assert_eq!(by_tree.is_some(), by_list.is_some());
        if let (Some(a), Some(b)) = (by_tree, by_list) {
            assert_eq!(a.0, b.0);
            let ties = (0..n).filter(|&p| hit(p, t_max).map(|h| h.0) == Some(a.0)).count();
            if ties == 1 {
                assert_eq!(a.1, b.1);
            }
        }
    }
}

#[test]
fn empty_hierarchy_is_refused() {
    assert_eq!(BvhNode::new(&Vec::new()).err(), Some(BvhError::Empty));
}

#[test]
fn hierarchy_over_one_primitive() {
    let boxes = vec![Aabb::new([20, 90, 90], [30, 110, 110])];
    let tree = BvhNode::new(&boxes).unwrap();
    assert_eq!(tree.primitives(), vec![0]);
    let hit = prim_hit(&boxes);
    assert_eq!(tree.hit(u64::MAX, &box_hit, &hit), Some((20, 0)));
    assert_eq!(tree.hit(20, &box_hit, &hit), None);
    for _ in 0..20 {
        agree_with_brute_force(1, 7);
    }
}

#[test]
fn hierarchy_over_two_primitives() {
    let boxes = vec![
        Aabb::new([50, 90, 90], [60, 110, 110]),
        Aabb::new([20, 90, 90], [30, 110, 110]),
    ];
    let tree = BvhNode::new(&boxes).unwrap();
    let hit = prim_hit(&boxes);
    assert_eq!(tree.hit(u64::MAX, &box_hit, &hit), Some((20, 1)));
    assert_eq!(tree.hit(25, &box_hit, &hit), Some((20, 1)));
    assert_eq!(tree.hit(20, &box_hit, &hit), None);
    match &tree {
        BvhNode::Inner { axis, left, right, .. } => {
            let (l, r) = (left.primitives()[0], right.primitives()[0]);
            assert!(boxes[l].minimum[*axis] <= boxes[r].minimum[*axis]);
        }
        BvhNode::Leaf { .. } => panic!("two primitives make an inner node"),
    }
    for seed in 0..30 {
        agree_with_brute_force(2, seed);
    }
}

#[test]
fn hierarchy_over_many_primitives() {
    for (n, seed) in [(3, 1), (4, 2), (5, 3), (10, 4), (33, 5), (100, 6), (257, 7)] {
        agree_with_brute_force(n, seed);
    }
    for seed in 0..40 {
        agree_with_brute_force(12, seed);
    }
}

#[test]
fn node_box_surrounds_its_primitives() {
    let boxes = scene(40, 99);
    let tree = BvhNode::new(&boxes).unwrap();
    let b = tree.bounding_box();
    for p in &boxes {
        for axis in 0..3 {
            assert!(b.minimum[axis] <= p.minimum[axis]);
            assert!(p.maximum[axis] <= b.maximum[axis]);
        }
    }
}
