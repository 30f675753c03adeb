//! Reading a tree: membership, the two heights, and copying.

use crate::order::{gt, lt, total_order};
use crate::tree::{Color, RBT};
use vstd::prelude::*;

verus! {

impl<T: PartialEq + PartialOrd + Clone> RBT<T> {
    /// `copy` has the shape and colours of `self`, and each of its keys is
    /// a clone of the key in the same place.
    pub open spec fn cloned_as(self, copy: RBT<T>) -> bool
        decreases self,
    {
        match self {
            RBT::Leaf => copy is Leaf,
            RBT::Node(c, l, x, r) => {
                &&& copy is Node
                &&& copy.color() == c
                &&& cloned::<T>(x, copy.key())
                &&& l.cloned_as(copy.left())
                &&& r.cloned_as(copy.right())
            },
        }
    }

    /// Where a clone of a key is always the key itself, a clone of a tree
    /// is the tree itself.
    pub proof fn lemma_exact_clone(self, copy: RBT<T>)
        requires
            self.cloned_as(copy),
            forall|a: T, b: T| #[trigger] cloned::<T>(a, b) ==> a == b,
        ensures
            copy == self,
        decreases self,
    {
        match self {
            RBT::Leaf => {},
            RBT::Node(_, l, _, r) => {
                l.lemma_exact_clone(copy.left());
                r.lemma_exact_clone(copy.right());
            },
        }
    }

    /// The shortest path to a leaf is no longer than the longest.
    pub proof fn lemma_shortest_le_longest(self)
        ensures
            self.shortest_path() <= self.longest_path(),
        decreases self,
    {
        match self {
            RBT::Leaf => {},
            RBT::Node(_, l, _, r) => {
                l.lemma_shortest_le_longest();
                r.lemma_shortest_le_longest();
            },
        }
    }

    /// Looks `x` up. Gives `x` back if the tree holds it.
    pub fn search(&self, x: T) -> (found: Option<T>)
        requires
            total_order::<T>(),
            self.is_bst(),
        ensures
            found == self.lookup(x),
            found is Some <==> self.keys().contains(x),
            found is Some ==> found == Some(x),
        decreases self,
    {
        match self {
            RBT::Leaf => None,
            RBT::Node(_, left, data, right) => {
                if x > *data {
                    assert(gt(x, *data) && !left.keys().contains(x));
                    right.search(x)
                } else if x < *data {
                    assert(lt(x, *data) && !right.keys().contains(x));
                    left.search(x)
                } else {
                    assert(!gt(x, *data));
                    assert(!lt(x, *data));
                    Some(x)
                }
            },
        }
    }

    /// The length of the longest path from the root to a leaf; 0 for the
    /// empty tree.
    pub fn max_height(&self) -> (h: i32)
        requires
            self.longest_path() <= i32::MAX,
        ensures
            h == self.longest_path(),
        decreases self,
    {
        match self {
            RBT::Leaf => 0,
            RBT::Node(_, left, _, right) => {
                let left_height = left.max_height();
                let right_height = right.max_height();
                left_height.max(right_height) + 1
            },
        }
    }

    /// The length of the shortest path from the root to a leaf; 0 for the
    /// empty tree.
    pub fn min_height(&self) -> (h: i32)
        requires
            self.longest_path() <= i32::MAX,
        ensures
            h == self.shortest_path(),
        decreases self,
    {
        match self {
            RBT::Leaf => 0,
            RBT::Node(_, left, _, right) => {
                proof {
                    left.lemma_shortest_le_longest();
                    right.lemma_shortest_le_longest();
                }
                let left_height = left.min_height();
                let right_height = right.min_height();
                left_height.min(right_height) + 1
            },
        }
    }
}

impl<T: PartialEq + PartialOrd + Clone> Clone for RBT<T> {
    /// Copies the tree node by node, cloning each key.
    fn clone(&self) -> (copy: Self)
        ensures
            self.cloned_as(copy),
        decreases self,
    {
        match self {
            RBT::Leaf => RBT::Leaf,
            RBT::Node(c, l, x, r) => {
                let left = (&**l).clone();
                let right = (&**r).clone();
                RBT::Node(*c, Box::new(left), x.clone(), Box::new(right))
            },
        }
    }
}

} // verus!
