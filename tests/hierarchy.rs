use photon::bvh::{longest_axis, scan, BvhNode};
use rand::rngs::SmallRng;
use rand::{Rng, SeedableRng};

// A primitive here is a set of at most two hit distances along the ray, like
// the two roots of a sphere; its box is the interval between them.
type Roots = (u64, Option<u64>);

fn nearest_root(roots: &Roots, lo: u64) -> Option<u64> {
    let (a, b) = *roots;
    if a >= lo {
        Some(a)
    } else {
        b.filter(|&t| t >= lo)
    }
}

fn bounds(roots: &Roots) -> (u64, u64) {
    (roots.0, roots.1.unwrap_or(roots.0))
}

fn build(table: &[Roots]) -> BvhNode<usize, (u64, u64)> {
    let ids: Vec<usize> = (0..table.len()).collect();
    BvhNode::build(
        ids,
        &|i: usize| bounds(&table[i]),
        &|a: (u64, u64), b: (u64, u64)| (a.0.min(b.0), a.1.max(b.1)),
        &|_enclosing: (u64, u64), mut v: Vec<usize>| {
            v.sort_by_key(|&i| {
                let (lo, hi) = bounds(&table[i]);
                lo + hi
            });
            v
        },
    )
}

fn box_hit(b: (u64, u64), lo: u64, hi: u64) -> bool {
    !(b.1 < lo || b.0 > hi)
}

fn random_roots(rng: &mut SmallRng) -> Roots {
    let a = rng.gen_range(0..1000u64);
    if rng.gen_bool(0.5) {
        (a, Some(a + rng.gen_range(0..200u64)))
    } else {
        (a, None)
    }
}

#[test]
fn single_object_is_a_leaf() {
    let table = vec![(5u64, None)];
    let tree = build(&table);
    assert_eq!(tree.leaf_count(), 1);
    assert_eq!(tree.depth(), 1);
    assert_eq!(tree.bounding_box(), (5, 5));
    assert!(matches!(tree, BvhNode::Leaf { object: 0, .. }));
}

#[test]
fn midpoint_split_shapes_the_tree() {
    let table: Vec<Roots> = (0..5u64).map(|i| (10 * i, None)).collect();
    let tree = build(&table);
    assert_eq!(tree.leaf_count(), 5);
    assert_eq!(tree.depth(), 4);
    assert_eq!(tree.bounding_box(), (0, 40));
    match &tree {
        BvhNode::Interior { left, right, .. } => {
            assert_eq!(left.leaf_count(), 2);
            assert_eq!(right.leaf_count(), 3);
            assert_eq!(left.bounding_box(), (0, 10));
            assert_eq!(right.bounding_box(), (20, 40));
        }
        BvhNode::Leaf { .. } => panic!("five objects make an interior root"),
    }
    let eight: Vec<Roots> = (0..8u64).map(|i| (i, None)).collect();
    assert_eq!(build(&eight).depth(), 4);
}

#[test]
fn hit_finds_nearest_in_range() {
    let table: Vec<Roots> = vec![(30, Some(50)), (10, None), (20, Some(25)), (100, None)];
    let tree = build(&table);
    let leaf = |i: usize, lo: u64| nearest_root(&table[i], lo);
    assert_eq!(tree.hit(&box_hit, &leaf, 0, u64::MAX), Some((10, 1)));
    assert_eq!(tree.hit(&box_hit, &leaf, 11, u64::MAX), Some((20, 2)));
    assert_eq!(tree.hit(&box_hit, &leaf, 26, u64::MAX), Some((30, 0)));
    assert_eq!(tree.hit(&box_hit, &leaf, 31, 60), Some((50, 0)));
    assert_eq!(tree.hit(&box_hit, &leaf, 51, 99), None);
    assert_eq!(tree.hit(&box_hit, &leaf, 101, u64::MAX), None);
    assert_eq!(scan(&(0..4).collect(), &leaf, 26, u64::MAX), Some((30, 0)));
    assert_eq!(scan(&(0..4).collect(), &leaf, 51, 99), None);
}

#[test]
fn hierarchy_matches_linear_scan_on_random_scenes() {
    let mut rng = SmallRng::seed_from_u64(0x5eed);
    for _ in 0..1000 {
        let n = rng.gen_range(1..40usize);
        let table: Vec<Roots> = (0..n).map(|_| random_roots(&mut rng)).collect();
        let tree = build(&table);
        assert_eq!(tree.leaf_count(), n);
        let leaf = |i: usize, lo: u64| nearest_root(&table[i], lo);
        let lo = rng.gen_range(0..1000u64);
        let hi = if rng.gen_bool(0.5) { u64::MAX } else { lo + rng.gen_range(0..400u64) };
        let from_tree = tree.hit(&box_hit, &leaf, lo, hi);
        let from_scan = scan(&(0..n).collect(), &leaf, lo, hi);
        assert_eq!(from_tree.map(|h| h.0), from_scan.map(|h| h.0));
        if let Some((t, i)) = from_tree {
            assert_eq!(nearest_root(&table[i], lo), Some(t));
        }
    }
}

#[test]
fn longest_axis_prefers_earlier_on_ties() {
    assert_eq!(longest_axis(3, 2, 1), 0);
    assert_eq!(longest_axis(1, 3, 2), 1);
    assert_eq!(longest_axis(1, 2, 3), 2);
    assert_eq!(longest_axis(2, 2, 1), 0);
    assert_eq!(longest_axis(1, 2, 2), 1);
    assert_eq!(longest_axis(2, 1, 2), 0);
    assert_eq!(longest_axis(0, 0, 0), 0);
}
