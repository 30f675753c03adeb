//! The repair that deletion applies on its way back up, when the subtree
//! on one side has lost one black node on every path. `rotate_left` is
//! called on the parent when the left side is short, `rotate_right` when
//! the right side is. Each looks at the sibling on the other side.

use crate::order::total_order;
use crate::tree::{black_count, node, Color, RBT};
use vstd::prelude::*;

verus! {

/// 1 where a subtree is reported as still short of one black node.
pub open spec fn debt(short: bool) -> nat {
    if short {
        1
    } else {
        0
    }
}

impl<T: PartialEq + PartialOrd + Clone> RBT<T> {
    /// The result of the repair for a short left side, with the flag that
    /// says whether the whole subtree is now short in turn.
    ///
    /// - sibling black, its left child red: that grandchild is lifted to
    ///   the top, which keeps the root's colour; not short;
    /// - sibling black, its right child red: the sibling is lifted to the
    ///   top, which keeps the root's colour; not short;
    /// - sibling black otherwise: the sibling turns red, the root black;
    ///   short exactly if the root was black before;
    /// - root black, sibling red: the sibling comes to the top, black, and
    ///   the old root goes down to the left, red, where it is repaired in
    ///   turn; not short;
    /// - any other tree is unchanged and not short.
    pub open spec fn spec_rotate_left(self) -> (bool, RBT<T>)
        decreases black_count(self.color()),
    {
        let r = self.right();
        if r.is_black() && r.left().is_red() {
            (false, self.spec_lift_right_inner(self.color()))
        } else if r.is_black() && r.right().is_red() {
            (false, self.spec_lift_right(self.color()))
        } else if r.is_black() {
            (
                self.color() == Color::Black,
                node(Color::Black, self.left(), self.key(), r.painted(Color::Red)),
            )
        } else if self.is_black() && r.is_red() {
            let down = node(Color::Red, self.left(), self.key(), r.left());
            (false, node(Color::Black, down.spec_rotate_left().1, r.key(), r.right()))
        } else {
            (false, self)
        }
    }

    /// The result of the repair for a short right side: the mirror image
    /// of `spec_rotate_left`, looking at the left sibling, its right child
    /// first.
    pub open spec fn spec_rotate_right(self) -> (bool, RBT<T>)
        decreases black_count(self.color()),
    {
        let l = self.left();
        if l.is_black() && l.right().is_red() {
            (false, self.spec_lift_left_inner(self.color()))
        } else if l.is_black() && l.left().is_red() {
            (false, self.spec_lift_left(self.color()))
        } else if l.is_black() {
            (
                self.color() == Color::Black,
                node(Color::Black, l.painted(Color::Red), self.key(), self.right()),
            )
        } else if self.is_black() && l.is_red() {
            let down = node(Color::Red, l.right(), self.key(), self.right());
            (false, node(Color::Black, l.left(), l.key(), down.spec_rotate_right().1))
        } else {
            (false, self)
        }
    }

    /// The left side of `self` is short by one black node, and apart from
    /// that the subtrees obey the colouring rules. The short side may have
    /// a red root, also under a red parent.
    pub open spec fn short_on_left(self) -> bool {
        &&& self is Node
        &&& self.left().is_red_black()
        &&& self.right().is_red_black()
        &&& self.left().black_height() + 1 == self.right().black_height()
        &&& self.is_red() ==> !self.right().is_red()
    }

    /// The right side of `self` is short by one black node, and apart
    /// from that the subtrees obey the colouring rules.
    pub open spec fn short_on_right(self) -> bool {
        &&& self is Node
        &&& self.left().is_red_black()
        &&& self.right().is_red_black()
        &&& self.right().black_height() + 1 == self.left().black_height()
        &&& self.is_red() ==> !self.left().is_red()
    }

    /// Neither repair changes the keys or their order.
    pub proof fn lemma_rotate_keeps_keys(self)
        ensures
            self.spec_rotate_left().1@ == self@,
            self.spec_rotate_left().1.keys() == self.keys(),
            total_order::<T>() && self.is_bst() ==> self.spec_rotate_left().1.is_bst(),
            self.spec_rotate_right().1@ == self@,
            self.spec_rotate_right().1.keys() == self.keys(),
            total_order::<T>() && self.is_bst() ==> self.spec_rotate_right().1.is_bst(),
        decreases black_count(self.color()),
    {
        let c = self.color();
        self.lemma_lift_left_keeps_keys(c);
        self.lemma_lift_left_inner_keeps_keys(c);
        self.lemma_lift_right_inner_keeps_keys(c);
        self.lemma_lift_right_keeps_keys(c);
        let l = self.left();
        let r = self.right();
        l.lemma_painted(Color::Red);
        r.lemma_painted(Color::Red);
        let out = self.spec_rotate_left().1;
        if !r.is_black() && self.is_black() && r.is_red() {
            let down = node(Color::Red, l, self.key(), r.left());
            down.lemma_rotate_keeps_keys();
            assert(down@ == l@.push(self.key()) + r.left()@);
            assert(r@ == r.left()@.push(r.key()) + r.right()@);
            assert(out@ == down@.push(r.key()) + r.right()@);
            assert(self@ == l@.push(self.key()) + r@);
        }
        assert(out@ =~= self@);
        out.lemma_same_order(self);
        let out = self.spec_rotate_right().1;
        if !l.is_black() && self.is_black() && l.is_red() {
            let down = node(Color::Red, l.right(), self.key(), r);
            down.lemma_rotate_keeps_keys();
            assert(down@ == l.right()@.push(self.key()) + r@);
            assert(l@ == l.left()@.push(l.key()) + l.right()@);
            assert(out@ == l.left()@.push(l.key()) + down@);
            assert(self@ == l@.push(self.key()) + r@);
        }
        assert(out@ =~= self@);
        out.lemma_same_order(self);
    }

    /// Where the left side is short, the repair gives a tree that obeys
    /// the colouring rules. Its black height is that of the tree before the
    /// loss, or one less if it is reported short, which happens only under
    /// a black root. Its root is red only if the root was red before.
    pub proof fn lemma_rotate_left_repairs(self)
        requires
            self.short_on_left(),
        ensures
            self.spec_rotate_left().1.is_red_black(),
            self.spec_rotate_left().1.black_height() + debt(self.spec_rotate_left().0)
                == self.right().black_height() + black_count(self.color()),
            self.spec_rotate_left().0 ==> self.is_black(),
            self.spec_rotate_left().1.is_red() ==> self.is_red(),
        decreases black_count(self.color()),
    {
        reveal_with_fuel(RBT::no_red_red, 3);
        reveal_with_fuel(RBT::black_height, 3);
        reveal_with_fuel(RBT::is_balanced, 3);
        let r = self.right();
        if !r.is_black() && self.is_black() && r.is_red() {
            let down = node(Color::Red, self.left(), self.key(), r.left());
            down.lemma_rotate_left_repairs();
        }
    }

    /// Where the right side is short, the repair gives a tree that obeys
    /// the colouring rules. Its black height is that of the tree before the
    /// loss, or one less if it is reported short, which happens only under
    /// a black root. Its root is red only if the root was red before.
    pub proof fn lemma_rotate_right_repairs(self)
        requires
            self.short_on_right(),
        ensures
            self.spec_rotate_right().1.is_red_black(),
            self.spec_rotate_right().1.black_height() + debt(self.spec_rotate_right().0)
                == self.left().black_height() + black_count(self.color()),
            self.spec_rotate_right().0 ==> self.is_black(),
            self.spec_rotate_right().1.is_red() ==> self.is_red(),
        decreases black_count(self.color()),
    {
        reveal_with_fuel(RBT::no_red_red, 3);
        reveal_with_fuel(RBT::black_height, 3);
        reveal_with_fuel(RBT::is_balanced, 3);
        let l = self.left();
        if !l.is_black() && self.is_black() && l.is_red() {
            let down = node(Color::Red, l.right(), self.key(), self.right());
            down.lemma_rotate_right_repairs();
        }
    }

    /// Neither repair mends a subtree that is uneven inside: the side it
    /// was called for goes into the result as it is.
    pub proof fn lemma_rotate_keeps_short_side(self)
        ensures
            self.spec_rotate_left().1.is_balanced() ==> self.left().is_balanced(),
            self.spec_rotate_right().1.is_balanced() ==> self.right().is_balanced(),
        decreases black_count(self.color()),
    {
        reveal_with_fuel(RBT::is_balanced, 3);
        let l = self.left();
        let r = self.right();
        if !r.is_black() && self.is_black() && r.is_red() {
            node(Color::Red, l, self.key(), r.left()).lemma_rotate_keeps_short_side();
        }
        if !l.is_black() && self.is_black() && l.is_red() {
            node(Color::Red, l.right(), self.key(), r).lemma_rotate_keeps_short_side();
        }
    }

    /// Both sides obey the colouring rules and have the same black
    /// height, which is not 0: nothing is short.
    pub open spec fn even_sides(self) -> bool {
        &&& self is Node
        &&& self.left().is_red_black()
        &&& self.right().is_red_black()
        &&& self.left().black_height() == self.right().black_height()
        &&& self.left().black_height() >= 1
    }

    /// The repair for a short left side, applied where nothing is short,
    /// leaves a tree that is not balanced.
    pub proof fn lemma_rotate_left_breaks_even_sides(self)
        requires
            self.even_sides(),
            self.is_red() ==> !self.right().is_red(),
        ensures
            !self.spec_rotate_left().1.is_balanced(),
        decreases black_count(self.color()),
    {
        reveal_with_fuel(RBT::no_red_red, 3);
        reveal_with_fuel(RBT::black_height, 3);
        reveal_with_fuel(RBT::is_balanced, 3);
        let r = self.right();
        if !r.is_black() && self.is_black() && r.is_red() {
            node(Color::Red, self.left(), self.key(), r.left()).lemma_rotate_left_breaks_even_sides();
        }
    }

    /// The repair for a short right side, applied where nothing is short,
    /// leaves a tree that is not balanced.
    pub proof fn lemma_rotate_right_breaks_even_sides(self)
        requires
            self.even_sides(),
            self.is_red() ==> !self.left().is_red(),
        ensures
            !self.spec_rotate_right().1.is_balanced(),
        decreases black_count(self.color()),
    {
        reveal_with_fuel(RBT::no_red_red, 3);
        reveal_with_fuel(RBT::black_height, 3);
        reveal_with_fuel(RBT::is_balanced, 3);
        let l = self.left();
        if !l.is_black() && self.is_black() && l.is_red() {
            node(Color::Red, l.right(), self.key(), self.right()).lemma_rotate_right_breaks_even_sides();
        }
    }

    /// Repairs a tree whose left side is one black node short.
    pub fn rotate_left(self) -> (out: (bool, RBT<T>))
        ensures
            out == self.spec_rotate_left(),
            out.1@ == self@,
            out.1.keys() == self.keys(),
            total_order::<T>() && self.is_bst() ==> out.1.is_bst(),
            self.short_on_left() ==> {
                &&& out.1.is_red_black()
                &&& out.1.black_height() + debt(out.0) == self.right().black_height()
                    + black_count(self.color())
                &&& out.0 ==> self.is_black()
                &&& out.1.is_red() ==> self.is_red()
            },
        decreases black_count(self.color()),
    {
        proof {
            self.lemma_rotate_keeps_keys();
            if self.short_on_left() {
                self.lemma_rotate_left_repairs();
            }
        }
        let c = self.root_color();
        let r = self.right_child();
        let sibling_black = r.is_black_node();
        let sibling_red = r.is_red_node();
        let inner_red = r.left_child().is_red_node();
        let outer_red = r.right_child().is_red_node();
        if sibling_black && inner_red {
            (false, self.lift_right_inner(c))
        } else if sibling_black && outer_red {
            (false, self.lift_right(c))
        } else if sibling_black {
            match self {
                RBT::Node(c, l, x, r) => (
                    c == Color::Black,
                    RBT::Node(Color::Black, l, x, Box::new((*r).paint(Color::Red))),
                ),
                RBT::Leaf => (false, RBT::Leaf),
            }
        } else if c == Color::Black && sibling_red {
            match self {
                RBT::Node(_, l, x, r) => match *r {
                    RBT::Node(_, rl, rx, rr) => {
                        let down = RBT::Node(Color::Red, l, x, rl);
                        let (_, left) = down.rotate_left();
                        (false, RBT::Node(Color::Black, Box::new(left), rx, rr))
                    },
                    RBT::Leaf => (false, RBT::Node(Color::Black, l, x, Box::new(RBT::Leaf))),
                },
                RBT::Leaf => (false, RBT::Leaf),
            }
        } else {
            (false, self)
        }
    }

    /// Repairs a tree whose right side is one black node short.
    pub fn rotate_right(self) -> (out: (bool, RBT<T>))
        ensures
            out == self.spec_rotate_right(),
            out.1@ == self@,
            out.1.keys() == self.keys(),
            total_order::<T>() && self.is_bst() ==> out.1.is_bst(),
            self.short_on_right() ==> {
                &&& out.1.is_red_black()
                &&& out.1.black_height() + debt(out.0) == self.left().black_height()
                    + black_count(self.color())
                &&& out.0 ==> self.is_black()
                &&& out.1.is_red() ==> self.is_red()
            },
        decreases black_count(self.color()),
    {
        proof {
            self.lemma_rotate_keeps_keys();
            if self.short_on_right() {
                self.lemma_rotate_right_repairs();
            }
        }
        let c = self.root_color();
        let l = self.left_child();
        let sibling_black = l.is_black_node();
        let sibling_red = l.is_red_node();
        let inner_red = l.right_child().is_red_node();
        let outer_red = l.left_child().is_red_node();
        if sibling_black && inner_red {
            (false, self.lift_left_inner(c))
        } else if sibling_black && outer_red {
            (false, self.lift_left(c))
        } else if sibling_black {
            match self {
                RBT::Node(c, l, x, r) => (
                    c == Color::Black,
                    RBT::Node(Color::Black, Box::new((*l).paint(Color::Red)), x, r),
                ),
                RBT::Leaf => (false, RBT::Leaf),
            }
        } else if c == Color::Black && sibling_red {
            match self {
                RBT::Node(_, l, x, r) => match *l {
                    RBT::Node(_, ll, lx, lr) => {
                        let down = RBT::Node(Color::Red, lr, x, r);
                        let (_, right) = down.rotate_right();
                        (false, RBT::Node(Color::Black, ll, lx, Box::new(right)))
                    },
                    RBT::Leaf => (false, RBT::Node(Color::Black, Box::new(RBT::Leaf), x, r)),
                },
                RBT::Leaf => (false, RBT::Leaf),
            }
        } else {
            (false, self)
        }
    }
}

} // verus!
