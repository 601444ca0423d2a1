use graphics::bvh::{BVHItem, BVHNode, Bounded};

/// An interval on a line, standing for a box.
#[derive(Debug, Clone, Copy, PartialEq)]
struct Seg {
    id: usize,
    lo: f64,
    hi: f64,
}

impl Bounded<(f64, f64)> for Seg {
    fn cover(items: &Vec<Self>) -> (f64, f64) {
        let mut lo = f64::INFINITY;
        let mut hi = f64::NEG_INFINITY;
        for s in items {
            lo = lo.min(s.lo);
            hi = hi.max(s.hi);
        }
        (lo, hi)
    }

    fn below_median(&self, b: &(f64, f64)) -> bool {
        0.5 * (self.lo + self.hi) < 0.5 * (b.0 + b.1)
    }
}

fn leaf_ids(n: &BVHNode<Seg, (f64, f64)>, out: &mut Vec<usize>) {
    match &n.item {
        BVHItem::Leaf(s) => out.push(s.id),
        BVHItem::Branch { left, right } => {
            leaf_ids(left, out);
            leaf_ids(right, out);
        }
    }
}

fn boxes_nest(n: &BVHNode<Seg, (f64, f64)>) -> bool {
    match &n.item {
        BVHItem::Leaf(s) => n.bounds == (s.lo, s.hi),
        BVHItem::Branch { left, right } => {
            n.bounds.0 <= left.bounds.0
                && left.bounds.1 <= n.bounds.1
                && n.bounds.0 <= right.bounds.0
                && right.bounds.1 <= n.bounds.1
                && boxes_nest(left)
                && boxes_nest(right)
        }
    }
}

fn segs(n: usize) -> Vec<Seg> {
    (0..n)
        .map(|i| Seg { id: i, lo: (i * 7 % n) as f64, hi: (i * 7 % n) as f64 + 0.5 })
        .collect()
}

#[test]
fn single_item_is_one_leaf() {
    let t = BVHNode::new(vec![Seg { id: 3, lo: 1.0, hi: 2.0 }]);
    assert_eq!(t.bounds, (1.0, 2.0));
    assert!(matches!(t.item, BVHItem::Leaf(Seg { id: 3, .. })));
}

#[test]
fn every_item_lands_in_exactly_one_leaf() {
    for n in [1usize, 2, 3, 10, 100] {
        let t = BVHNode::new(segs(n));
        let mut ids = Vec::new();
        leaf_ids(&t, &mut ids);
        ids.sort();
        assert_eq!(ids, (0..n).collect::<Vec<_>>());
        assert!(boxes_nest(&t));
    }
}

#[test]
fn split_goes_by_spatial_median() {
    let items = vec![
        Seg { id: 0, lo: 0.0, hi: 1.0 },
        Seg { id: 1, lo: 9.0, hi: 10.0 },
        Seg { id: 2, lo: 1.0, hi: 2.0 },
    ];
    let t = BVHNode::new(items);
    assert_eq!(t.bounds, (0.0, 10.0));
    match &t.item {
        BVHItem::Branch { left, right } => {
            let mut l = Vec::new();
            leaf_ids(left, &mut l);
            let mut r = Vec::new();
            leaf_ids(right, &mut r);
            assert_eq!(l, vec![0, 2]);
            assert_eq!(r, vec![1]);
        }
        _ => panic!("expected a branch"),
    }
}

#[test]
fn coincident_items_still_split() {
    let items: Vec<Seg> = (0..5).map(|i| Seg { id: i, lo: 2.0, hi: 3.0 }).collect();
    let t = BVHNode::new(items);
    match &t.item {
        BVHItem::Branch { left, right } => {
            let mut l = Vec::new();
            leaf_ids(left, &mut l);
            let mut r = Vec::new();
            leaf_ids(right, &mut r);
            assert_eq!(l, vec![4]);
            assert_eq!(r, vec![3, 2, 1, 0]);
        }
        _ => panic!("expected a branch"),
    }
}
