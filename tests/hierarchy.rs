use raytrace::bounds::{Bounds, Point};
use raytrace::bvh::{Model, Tree};
use raytrace::split::{split_keys, SplitDim};
use raytrace::traverse::hit_list;

fn cube(id: usize, lo: i64, hi: i64) -> Model {
    Model::Entity {
        id,
        bounds: Some(Bounds::new(Point::new(lo, lo, lo), Point::new(hi, hi, hi))),
    }
}

fn entities(m: &Model, out: &mut Vec<usize>) {
    match m {
        Model::Entity { id, .. } => out.push(*id),
        Model::Node(t) => {
            entities(&t.left, out);
            entities(&t.right, out);
        }
    }
}

fn ids(m: &Model) -> Vec<usize> {
    let mut out = Vec::new();
    entities(m, &mut out);
    out
}

fn node(m: &Model) -> &Tree {
    match m {
        Model::Node(t) => t,
        Model::Entity { .. } => panic!("expected a node"),
    }
}

#[test]
fn split_keys_follow_the_axes() {
    assert_eq!(split_keys(&[SplitDim::X, SplitDim::Y, SplitDim::Z]), vec![0, 1, 2, 3, 4, 5]);
    assert_eq!(split_keys(&[SplitDim::X, SplitDim::Z]), vec![0, 1, 4, 5]);
    assert_eq!(split_keys(&[SplitDim::Y]), vec![2, 3]);
    assert_eq!(split_keys(&[SplitDim::Z, SplitDim::X, SplitDim::Z]), vec![0, 1, 4, 5]);
    assert_eq!(split_keys(&[]), Vec::<usize>::new());
}

#[test]
fn bounds_new_orders_the_corners() {
    let b = Bounds::new(Point::new(3, -1, 7), Point::new(-2, 5, 7));
    assert_eq!(b.min, Point::new(-2, -1, 7));
    assert_eq!(b.max, Point::new(3, 5, 7));
}

#[test]
fn surrounding_box_holds_both_and_no_more() {
    let b1 = Bounds::new(Point::new(0, 0, 0), Point::new(2, 5, 1));
    let b2 = Bounds::new(Point::new(-1, 3, 4), Point::new(1, 4, 9));
    let u = Bounds::surrounding_box(b1, b2);
    assert_eq!(u.min, Point::new(-1, 0, 0));
    assert_eq!(u.max, Point::new(2, 5, 9));
    assert_eq!(Bounds::surrounding_box(b2, b1), u);
    assert_eq!(Bounds::surrounding_box(b1, b1), b1);
}

#[test]
fn one_model_is_returned_as_it_is() {
    let mut list = vec![cube(7, 0, 1)];
    let m = Tree::from_list_on_dimensions(&mut list, &[SplitDim::X]);
    assert!(list.is_empty());
    assert_eq!(ids(&m), vec![7]);
    assert!(matches!(m, Model::Entity { id: 7, .. }));
}

#[test]
fn two_models_become_one_node_in_order() {
    let mut list = vec![cube(4, 5, 6), cube(2, 0, 1)];
    let m = Tree::from_list_on_dimensions(&mut list, &[SplitDim::X]);
    assert!(list.is_empty());
    let t = node(&m);
    assert!(matches!(t.left, Model::Entity { id: 4, .. }));
    assert!(matches!(t.right, Model::Entity { id: 2, .. }));
    let b = t.bounds().unwrap();
    assert_eq!(b.min, Point::new(0, 0, 0));
    assert_eq!(b.max, Point::new(6, 6, 6));
}

#[test]
fn unbounded_child_leaves_node_unbounded() {
    let t = Tree::new(cube(0, 0, 1), Model::Entity { id: 1, bounds: None });
    assert!(t.bounds().is_none());
    assert!(Model::Node(Box::new(t)).bounds().is_none());
}

#[test]
fn median_split_sorts_before_halving() {
    // Boxes whose lower and upper bounds are in the same order on the x axis.
    let mut list = vec![cube(0, 40, 41), cube(1, 10, 11), cube(2, 30, 31), cube(3, 0, 1), cube(4, 20, 21)];
    let m = Tree::from_list_on_dimensions(&mut list, &[SplitDim::X]);
    assert!(list.is_empty());
    let t = node(&m);
    let mut left = ids(&t.left);
    left.sort();
    assert_eq!(left, vec![1, 3]);
    let mut right = ids(&t.right);
    right.sort();
    assert_eq!(right, vec![0, 2, 4]);
    let b = t.bounds().unwrap();
    assert_eq!(b.min, Point::new(0, 0, 0));
    assert_eq!(b.max, Point::new(41, 41, 41));
}

#[test]
fn from_list_keeps_every_model_once() {
    let mut list: Vec<Model> = (0..9).map(|i| cube(i, (i as i64 * 7) % 11, (i as i64 * 7) % 11 + 3)).collect();
    let m = Tree::from_list(&mut list);
    assert!(list.is_empty());
    let mut all = ids(&m);
    all.sort();
    assert_eq!(all, (0..9).collect::<Vec<usize>>());
    let t = node(&m);
    assert_eq!(ids(&t.left).len(), 4);
    assert_eq!(ids(&t.right).len(), 5);
}

/// Entities on the x axis: entity `i` covers `[c - r, c + r]`, met by a ray
/// from the origin along +x.
fn segment_hit(segs: &[(f64, f64)], i: usize, lo: f64, hi: f64) -> Option<(f64, usize)> {
    let (c, r) = segs[i];
    for t in [c - r, c + r] {
        if t > lo && t < hi {
            return Some((t, i));
        }
    }
    None
}

fn segment_bounds(segs: &[(f64, f64)], i: usize) -> Bounds {
    let (c, r) = segs[i];
    Bounds::new(
        Point::new(((c - r) * 1000.0) as i64, -1, -1),
        Point::new(((c + r) * 1000.0) as i64, 1, 1),
    )
}

fn box_met(b: Bounds, lo: f64, hi: f64) -> bool {
    let x0 = b.min.x as f64 / 1000.0;
    let x1 = b.max.x as f64 / 1000.0;
    x1 > lo && x0 < hi
}

#[test]
fn traversal_finds_the_nearest_hit() {
    let segs = vec![(9.0, 1.0), (3.0, 0.5), (6.0, 1.5), (20.0, 1.0), (1.5, 0.1), (14.0, 3.0)];
    let mut list: Vec<Model> = (0..segs.len())
        .map(|i| Model::Entity { id: i, bounds: Some(segment_bounds(&segs, i)) })
        .collect();
    let flat: Vec<Model> = (0..segs.len())
        .map(|i| Model::Entity { id: i, bounds: Some(segment_bounds(&segs, i)) })
        .rev()
        .collect();
    let m = Tree::from_list(&mut list);
    let hit_entity = |i: usize, lo: f64, hi: f64| segment_hit(&segs, i, lo, hi);
    let hit_bounds = |b: Bounds, lo: f64, hi: f64| box_met(b, lo, hi);
    for (lo, hi) in [(0.0, 100.0), (1.45, 100.0), (2.7, 100.0), (5.0, 100.0), (0.0, 2.0), (10.5, 12.0), (21.5, 30.0)] {
        // Every entity tested, the nearest kept.
        let mut best: Option<(usize, f64)> = None;
        for i in 0..segs.len() {
            if let Some((t, _)) = segment_hit(&segs, i, lo, hi) {
                if best.map_or(true, |(_, bt)| t < bt) {
                    best = Some((i, t));
                }
            }
        }
        let got = m.hit_model(lo, hi, &hit_entity, &hit_bounds).map(|(i, t, _)| (i, t));
        assert_eq!(got, best, "interval ({}, {})", lo, hi);
        let scanned = hit_list(&flat, lo, hi, &hit_entity, &hit_bounds).map(|(i, t, _)| (i, t));
        assert_eq!(scanned, best, "interval ({}, {})", lo, hi);
    }
}

#[test]
fn missed_box_prunes_the_whole_node() {
    let mut list = vec![cube(0, 0, 1), cube(1, 2, 3), cube(2, 4, 5)];
    let m = Tree::from_list_on_dimensions(&mut list, &[SplitDim::Y]);
    let hit_entity = |i: usize, lo: i64, _hi: i64| Some((lo + 1 + i as i64, ()));
    let no_box = |_b: Bounds, _lo: i64, _hi: i64| false;
    assert!(m.hit_model(0i64, 100i64, &hit_entity, &no_box).is_none());
    let every_box = |_b: Bounds, _lo: i64, _hi: i64| true;
    assert!(m.hit_model(0i64, 100i64, &hit_entity, &every_box).is_some());
}

fn sphere_hit(center: [f64; 3], radius: f64, dir: [f64; 3], lo: f64, hi: f64) -> Option<(f64, [f64; 3])> {
    let oc = [-center[0], -center[1], -center[2]];
    let a = dir[0] * dir[0] + dir[1] * dir[1] + dir[2] * dir[2];
    let b = oc[0] * dir[0] + oc[1] * dir[1] + oc[2] * dir[2];
    let c = oc[0] * oc[0] + oc[1] * oc[1] + oc[2] * oc[2] - radius * radius;
    let disc = b * b - a * c;
    if disc <= 0.0 {
        return None;
    }
    for root in [-disc.sqrt(), disc.sqrt()] {
        let t = (-b + root) / a;
        if t > lo && t < hi {
            let p = [t * dir[0], t * dir[1], t * dir[2]];
            let n = [(p[0] - center[0]) / radius, (p[1] - center[1]) / radius, (p[2] - center[2]) / radius];
            return Some((t, n));
        }
    }
    None
}

#[test]
fn scene_center_ray_hits_front_sphere() {
    // Ground sphere and a small sphere in front of a camera at the origin;
    // the ray through the image center points along -z.
    let spheres = [([0.0, -100.5, -1.0], 100.0), ([0.0, 0.0, -1.0], 0.5)];
    let dir = [-2.0 + 0.5 * 4.0, -1.0 + 0.5 * 2.0, -1.0];
    let mut list: Vec<Model> = (0..2).map(|i| Model::Entity { id: i, bounds: None }).collect();
    let m = Tree::from_list(&mut list);
    let hit_entity = |i: usize, lo: f64, hi: f64| sphere_hit(spheres[i].0, spheres[i].1, dir, lo, hi);
    let hit_bounds = |_b: Bounds, _lo: f64, _hi: f64| true;
    let (id, t, n) = m.hit_model(1e-3, f64::MAX, &hit_entity, &hit_bounds).unwrap();
    assert_eq!(id, 1);
    assert!(t > 0.0);
    assert!((t - 0.5).abs() < 1e-9);
    assert!(n[0].abs() < 1e-9 && n[1].abs() < 1e-9 && (n[2] - 1.0).abs() < 1e-9);
}
