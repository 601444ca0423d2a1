//! Top-down construction of a bounding-volume hierarchy by spatial-median
//! splits.
//!
//! The geometry is the items' own: the box type `B`, the box that covers a
//! list of items, and on which side of a node's spatial median an item falls.
//! What is fixed here is the shape: every item ends in exactly one leaf, and
//! every split leaves both sides nonempty, so the construction ends.
use vstd::prelude::*;
use vstd::multiset::Multiset;

verus! {

broadcast use {
    vstd::seq_lib::group_to_multiset_ensures,
    vstd::seq_lib::lemma_multiset_commutative,
    vstd::multiset::group_multiset_axioms,
};

/// What the hierarchy needs to know of its items.
pub trait Bounded<B>: Sized {
    /// The box that covers every item of the nonempty list `items`.
    fn cover(items: &Vec<Self>) -> B;

    /// Whether the item's own midpoint lies below the midpoint of the node box
    /// `b`, along the axis on which `b` is widest.
    fn below_median(&self, b: &B) -> bool;
}

pub enum BVHItem<T, B> {
    Leaf(T),
    Branch { left: Box<BVHNode<T, B>>, right: Box<BVHNode<T, B>> },
}

/// A node of the hierarchy: the box of its subtree, and a leaf or two children.
pub struct BVHNode<T, B> {
    pub bounds: B,
    pub item: BVHItem<T, B>,
}

impl<T, B> BVHNode<T, B> {
    /// The items of the leaves, from left to right.
    pub open spec fn leaves(&self) -> Seq<T>
        decreases self,
    {
        match &self.item {
            BVHItem::Leaf(t) => seq![*t],
            BVHItem::Branch { left, right } => left.leaves() + right.leaves(),
        }
    }
}

/// Moves every item of `items` onto a new list in reverse order.
fn reversed<T>(items: Vec<T>) -> (r: Vec<T>)
    ensures
        r@.to_multiset() == items@.to_multiset(),
        r@.len() == items@.len(),
{
    let ghost all = items@.to_multiset();
    let mut items = items;
    let mut rev: Vec<T> = Vec::new();
    while items.len() > 0
        invariant
            items@.to_multiset().add(rev@.to_multiset()) == all,
            items@.len() + rev@.len() == all.len(),
        decreases items@.len(),
    {
        let ghost before = items@;
        let t = items.pop().unwrap();
        assert(before == items@.push(t));
        rev.push(t);
        assert(items@.to_multiset().add(rev@.to_multiset()) =~= all);
    }
    assert(items@.to_multiset() =~= Multiset::empty());
    assert(rev@.to_multiset() =~= all);
    rev
}

impl<T: Bounded<B>, B> BVHNode<T, B> {
    /// Builds the hierarchy over the nonempty list `items`: one leaf for a
    /// single item; otherwise a branch whose two sides split the items by the
    /// spatial median of the covering box, with one item moved over when a
    /// side would be empty.
    pub fn new(items: Vec<T>) -> (r: Self)
        requires
            items@.len() >= 1,
        ensures
            r.leaves().to_multiset() == items@.to_multiset(),
        decreases items@.len(),
    {
        let bounds = T::cover(&items);
        let ghost all = items@.to_multiset();
        let n = items.len();
        if n == 1 {
            let mut items = items;
            let ghost s = items@;
            let t = items.pop().unwrap();
            assert(s =~= seq![t]);
            return BVHNode { bounds, item: BVHItem::Leaf(t) };
        }
        let mut rest = reversed(items);
        let mut left: Vec<T> = Vec::new();
        let mut right: Vec<T> = Vec::new();
        while rest.len() > 0
            invariant
                rest@.to_multiset().add(left@.to_multiset()).add(right@.to_multiset()) == all,
                rest@.len() + left@.len() + right@.len() == n,
            decreases rest@.len(),
        {
            let ghost before = rest@;
            let t = rest.pop().unwrap();
            assert(before == rest@.push(t));
            if t.below_median(&bounds) {
                left.push(t);
            } else {
                right.push(t);
            }
            assert(rest@.to_multiset().add(left@.to_multiset()).add(right@.to_multiset()) =~= all);
        }
        assert(rest@.to_multiset() =~= Multiset::empty());
        if left.len() == 0 {
            let ghost before = right@;
            let t = right.pop().unwrap();
            assert(before == right@.push(t));
            left.push(t);
        }
        if right.len() == 0 {
            let ghost before = left@;
            let t = left.pop().unwrap();
            assert(before == left@.push(t));
            right.push(t);
        }
        assert(left@.to_multiset().add(right@.to_multiset()) =~= all);
        let l = BVHNode::new(left);
        let r = BVHNode::new(right);
        let node = BVHNode {
            bounds,
            item: BVHItem::Branch { left: Box::new(l), right: Box::new(r) },
        };
        assert(node.leaves() == l.leaves() + r.leaves());
        node
    }
}

} // verus!
