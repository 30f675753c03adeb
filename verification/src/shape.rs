//! Reading the shape of a tree near its root, and the four local
//! restructurings that both repair procedures are made of. Each of them
//! lifts a child or grandchild of the root to the top and leaves the
//! in-order sequence of keys as it was.

use crate::order::total_order;
use crate::tree::{node, Color, RBT};
use vstd::prelude::*;

verus! {

impl<T: PartialEq + PartialOrd + Clone> RBT<T> {
    /// Whether the tree holds no key.
    pub fn is_empty(&self) -> (empty: bool)
        ensures
            empty == (self is Leaf),
            empty == (self.keys() =~= Set::empty()),
            empty == (self@.len() == 0),
    {
        match self {
            RBT::Leaf => true,
            RBT::Node(_, _, x, _) => {
                assert(self.keys().contains(*x));
                false
            },
        }
    }

    /// Whether the root is a red node.
    pub(crate) fn is_red_node(&self) -> (red: bool)
        ensures
            red == self.is_red(),
    {
        match self {
            RBT::Node(Color::Red, _, _, _) => true,
            _ => false,
        }
    }

    /// Whether the root is a black node.
    pub(crate) fn is_black_node(&self) -> (black: bool)
        ensures
            black == self.is_black(),
    {
        match self {
            RBT::Node(Color::Black, _, _, _) => true,
            _ => false,
        }
    }

    /// The colour of the root; black for the empty tree.
    pub(crate) fn root_color(&self) -> (c: Color)
        ensures
            c == self.color(),
    {
        match self {
            RBT::Node(c, _, _, _) => *c,
            RBT::Leaf => Color::Black,
        }
    }

    /// The left subtree; the empty tree itself where there is none.
    pub(crate) fn left_child(&self) -> (l: &RBT<T>)
        ensures
            *l == self.left(),
    {
        match self {
            RBT::Node(_, l, _, _) => &**l,
            RBT::Leaf => self,
        }
    }

    /// The right subtree; the empty tree itself where there is none.
    pub(crate) fn right_child(&self) -> (r: &RBT<T>)
        ensures
            *r == self.right(),
    {
        match self {
            RBT::Node(_, _, _, r) => &**r,
            RBT::Leaf => self,
        }
    }

    /// Gives the root the colour `c`.
    pub(crate) fn paint(self, c: Color) -> (out: RBT<T>)
        ensures
            out == self.painted(c),
    {
        match self {
            RBT::Node(_, l, x, r) => RBT::Node(c, l, x, r),
            RBT::Leaf => RBT::Leaf,
        }
    }

    /// The left child's key goes to the top, which gets the colour `top`;
    /// its two new children are black. Needs a left child with a left
    /// child of its own; any other tree is unchanged.
    pub open spec fn spec_lift_left(self, top: Color) -> RBT<T> {
        let l = self.left();
        if l.left() is Node {
            node(top, l.left().painted(Color::Black), l.key(), node(Color::Black, l.right(), self.key(), self.right()))
        } else {
            self
        }
    }

    /// The key of the left child's right child goes to the top, which gets
    /// the colour `top`; its two new children are black. Needs that
    /// grandchild; any other tree is unchanged.
    pub open spec fn spec_lift_left_inner(self, top: Color) -> RBT<T> {
        let l = self.left();
        let m = l.right();
        if m is Node {
            node(
                top,
                node(Color::Black, l.left(), l.key(), m.left()),
                m.key(),
                node(Color::Black, m.right(), self.key(), self.right()),
            )
        } else {
            self
        }
    }

    /// The key of the right child's left child goes to the top, which gets
    /// the colour `top`; its two new children are black. Needs that
    /// grandchild; any other tree is unchanged.
    pub open spec fn spec_lift_right_inner(self, top: Color) -> RBT<T> {
        let r = self.right();
        let m = r.left();
        if m is Node {
            node(
                top,
                node(Color::Black, self.left(), self.key(), m.left()),
                m.key(),
                node(Color::Black, m.right(), r.key(), r.right()),
            )
        } else {
            self
        }
    }

    /// The right child's key goes to the top, which gets the colour `top`;
    /// its two new children are black. Needs a right child with a right
    /// child of its own; any other tree is unchanged.
    pub open spec fn spec_lift_right(self, top: Color) -> RBT<T> {
        let r = self.right();
        if r.right() is Node {
            node(top, node(Color::Black, self.left(), self.key(), r.left()), r.key(), r.right().painted(Color::Black))
        } else {
            self
        }
    }

    /// Lifts the left child to the top.
    pub(crate) fn lift_left(self, top: Color) -> (out: RBT<T>)
        ensures
            out == self.spec_lift_left(top),
    {
        match self {
            RBT::Node(c, l, x, r) => match *l {
                RBT::Node(lc, ll, lx, lr) => match *ll {
                    RBT::Node(_, lll, llx, llr) => RBT::Node(
                        top,
                        Box::new(RBT::Node(Color::Black, lll, llx, llr)),
                        lx,
                        Box::new(RBT::Node(Color::Black, lr, x, r)),
                    ),
                    RBT::Leaf => RBT::Node(
                        c,
                        Box::new(RBT::Node(lc, Box::new(RBT::Leaf), lx, lr)),
                        x,
                        r,
                    ),
                },
                RBT::Leaf => RBT::Node(c, Box::new(RBT::Leaf), x, r),
            },
            RBT::Leaf => RBT::Leaf,
        }
    }

    /// Lifts the left child's right child to the top.
    pub(crate) fn lift_left_inner(self, top: Color) -> (out: RBT<T>)
        ensures
            out == self.spec_lift_left_inner(top),
    {
        match self {
            RBT::Node(c, l, x, r) => match *l {
                RBT::Node(lc, ll, lx, lr) => match *lr {
                    RBT::Node(_, lrl, lrx, lrr) => RBT::Node(
                        top,
                        Box::new(RBT::Node(Color::Black, ll, lx, lrl)),
                        lrx,
                        Box::new(RBT::Node(Color::Black, lrr, x, r)),
                    ),
                    RBT::Leaf => RBT::Node(
                        c,
                        Box::new(RBT::Node(lc, ll, lx, Box::new(RBT::Leaf))),
                        x,
                        r,
                    ),
                },
                RBT::Leaf => RBT::Node(c, Box::new(RBT::Leaf), x, r),
            },
            RBT::Leaf => RBT::Leaf,
        }
    }

    /// Lifts the right child's left child to the top.
    pub(crate) fn lift_right_inner(self, top: Color) -> (out: RBT<T>)
        ensures
            out == self.spec_lift_right_inner(top),
    {
        match self {
            RBT::Node(c, l, x, r) => match *r {
                RBT::Node(rc, rl, rx, rr) => match *rl {
                    RBT::Node(_, rll, rlx, rlr) => RBT::Node(
                        top,
                        Box::new(RBT::Node(Color::Black, l, x, rll)),
                        rlx,
                        Box::new(RBT::Node(Color::Black, rlr, rx, rr)),
                    ),
                    RBT::Leaf => RBT::Node(
                        c,
                        l,
                        x,
                        Box::new(RBT::Node(rc, Box::new(RBT::Leaf), rx, rr)),
                    ),
                },
                RBT::Leaf => RBT::Node(c, l, x, Box::new(RBT::Leaf)),
            },
            RBT::Leaf => RBT::Leaf,
        }
    }

    /// Lifts the right child to the top.
    pub(crate) fn lift_right(self, top: Color) -> (out: RBT<T>)
        ensures
            out == self.spec_lift_right(top),
    {
        match self {
            RBT::Node(c, l, x, r) => match *r {
                RBT::Node(rc, rl, rx, rr) => match *rr {
                    RBT::Node(_, rrl, rrx, rrr) => RBT::Node(
                        top,
                        Box::new(RBT::Node(Color::Black, l, x, rl)),
                        rx,
                        Box::new(RBT::Node(Color::Black, rrl, rrx, rrr)),
                    ),
                    RBT::Leaf => RBT::Node(
                        c,
                        l,
                        x,
                        Box::new(RBT::Node(rc, rl, rx, Box::new(RBT::Leaf))),
                    ),
                },
                RBT::Leaf => RBT::Node(c, l, x, Box::new(RBT::Leaf)),
            },
            RBT::Leaf => RBT::Leaf,
        }
    }

    /// Painting the root changes neither the keys nor their order, nor
    /// anything below the root.
    pub proof fn lemma_painted(self, c: Color)
        ensures
            self.painted(c)@ == self@,
            self.painted(c).keys() == self.keys(),
            self.painted(c).is_bst() == self.is_bst(),
            self.painted(c).no_red_red_below() == self.no_red_red_below(),
            self.painted(c).is_balanced() == self.is_balanced(),
    {
    }

    /// Lifting the left child keeps the in-order sequence, hence the keys
    /// and the search-tree ordering.
    pub proof fn lemma_lift_left_keeps_keys(self, top: Color)
        ensures
            self.spec_lift_left(top)@ == self@,
            self.spec_lift_left(top).keys() == self.keys(),
            total_order::<T>() && self.is_bst() ==> self.spec_lift_left(top).is_bst(),
    {
        let out = self.spec_lift_left(top);
        if self.left().left() is Node {
            let l = self.left();
            l.left().lemma_painted(Color::Black);
            assert(self@ == l@.push(self.key()) + self.right()@);
            assert(l@ == l.left()@.push(l.key()) + l.right()@);
            assert(out.right()@ == l.right()@.push(self.key()) + self.right()@);
            assert(out@ == l.left()@.push(l.key()) + out.right()@);
            assert(out@ =~= self@);
        }
        out.lemma_same_order(self);
    }

    /// Lifting the left child's right child keeps the in-order sequence,
    /// hence the keys and the search-tree ordering.
    pub proof fn lemma_lift_left_inner_keeps_keys(self, top: Color)
        ensures
            self.spec_lift_left_inner(top)@ == self@,
            self.spec_lift_left_inner(top).keys() == self.keys(),
            total_order::<T>() && self.is_bst() ==> self.spec_lift_left_inner(top).is_bst(),
    {
        let out = self.spec_lift_left_inner(top);
        if self.left().right() is Node {
            let l = self.left();
            let m = l.right();
            assert(self@ == l@.push(self.key()) + self.right()@);
            assert(l@ == l.left()@.push(l.key()) + m@);
            assert(m@ == m.left()@.push(m.key()) + m.right()@);
            assert(out.left()@ == l.left()@.push(l.key()) + m.left()@);
            assert(out.right()@ == m.right()@.push(self.key()) + self.right()@);
            assert(out@ == out.left()@.push(m.key()) + out.right()@);
            assert(out@ =~= self@);
        }
        out.lemma_same_order(self);
    }

    /// Lifting the right child's left child keeps the in-order sequence,
    /// hence the keys and the search-tree ordering.
    pub proof fn lemma_lift_right_inner_keeps_keys(self, top: Color)
        ensures
            self.spec_lift_right_inner(top)@ == self@,
            self.spec_lift_right_inner(top).keys() == self.keys(),
            total_order::<T>() && self.is_bst() ==> self.spec_lift_right_inner(top).is_bst(),
    {
        let out = self.spec_lift_right_inner(top);
        if self.right().left() is Node {
            let r = self.right();
            let m = r.left();
            assert(self@ == self.left()@.push(self.key()) + r@);
            assert(r@ == m@.push(r.key()) + r.right()@);
            assert(m@ == m.left()@.push(m.key()) + m.right()@);
            assert(out.left()@ == self.left()@.push(self.key()) + m.left()@);
            assert(out.right()@ == m.right()@.push(r.key()) + r.right()@);
            assert(out@ == out.left()@.push(m.key()) + out.right()@);
            assert(out@ =~= self@);
        }
        out.lemma_same_order(self);
    }

    /// Lifting the right child keeps the in-order sequence, hence the keys
    /// and the search-tree ordering.
    pub proof fn lemma_lift_right_keeps_keys(self, top: Color)
        ensures
            self.spec_lift_right(top)@ == self@,
            self.spec_lift_right(top).keys() == self.keys(),
            total_order::<T>() && self.is_bst() ==> self.spec_lift_right(top).is_bst(),
    {
        let out = self.spec_lift_right(top);
        if self.right().right() is Node {
            let r = self.right();
            r.right().lemma_painted(Color::Black);
            assert(self@ == self.left()@.push(self.key()) + r@);
            assert(r@ == r.left()@.push(r.key()) + r.right()@);
            assert(out.left()@ == self.left()@.push(self.key()) + r.left()@);
            assert(out@ == out.left()@.push(r.key()) + r.right()@);
            assert(out@ =~= self@);
        }
        out.lemma_same_order(self);
    }
}

} // verus!
