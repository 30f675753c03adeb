//! The repair that insertion applies on its way back up: a black node
//! with a red child that has a red child of its own is rewritten so that
//! the middle key of the three comes to the top, red, over two black
//! children.

use crate::order::total_order;
use crate::tree::{Color, RBT};
use vstd::prelude::*;

verus! {

impl<T: PartialEq + PartialOrd + Clone> RBT<T> {
    /// The tree after the repair. The four shapes are tried in this
    /// order: the red pair on the left going left, on the left going
    /// right, on the right going left, on the right going right. A tree of
    /// none of these shapes is left as it is.
    pub open spec fn spec_balance(self) -> RBT<T> {
        let l = self.left();
        let r = self.right();
        if !self.is_black() {
            self
        } else if l.is_red() && l.left().is_red() {
            self.spec_lift_left(Color::Red)
        } else if l.is_red() && l.right().is_red() {
            self.spec_lift_left_inner(Color::Red)
        } else if r.is_red() && r.left().is_red() {
            self.spec_lift_right_inner(Color::Red)
        } else if r.is_red() && r.right().is_red() {
            self.spec_lift_right(Color::Red)
        } else {
            self
        }
    }

    /// The repair changes neither the keys nor their order.
    pub proof fn lemma_balance_keeps_keys(self)
        ensures
            self.spec_balance()@ == self@,
            self.spec_balance().keys() == self.keys(),
            total_order::<T>() && self.is_bst() ==> self.spec_balance().is_bst(),
    {
        self.lemma_lift_left_keeps_keys(Color::Red);
        self.lemma_lift_left_inner_keeps_keys(Color::Red);
        self.lemma_lift_right_inner_keeps_keys(Color::Red);
        self.lemma_lift_right_keeps_keys(Color::Red);
    }

    /// The repair keeps the black height, and its result is balanced
    /// exactly if the tree was.
    pub proof fn lemma_balance_keeps_black_height(self)
        ensures
            self.spec_balance().black_height() == self.black_height(),
            self.spec_balance().is_balanced() == self.is_balanced(),
    {
        reveal_with_fuel(RBT::black_height, 3);
        reveal_with_fuel(RBT::is_balanced, 3);
    }

    /// What the repair is for: under a black root, if one subtree has no
    /// red node with a red child and the other has none below its root,
    /// the result has none at all.
    pub proof fn lemma_balance_removes_red_red(self)
        requires
            self.is_black(),
            self.left().no_red_red_below(),
            self.right().no_red_red_below(),
            self.left().no_red_red() || self.right().no_red_red(),
        ensures
            self.spec_balance().no_red_red(),
    {
        reveal_with_fuel(RBT::no_red_red, 3);
    }

    /// Where no red node has a red child there is nothing to repair.
    pub proof fn lemma_balance_identity(self)
        requires
            self.no_red_red(),
        ensures
            self.spec_balance() == self,
    {
        reveal_with_fuel(RBT::no_red_red, 2);
    }

    /// Repairs a red node with a red child directly under a black root.
    pub fn balance(self) -> (out: RBT<T>)
        ensures
            out == self.spec_balance(),
            out@ == self@,
            out.keys() == self.keys(),
            out.black_height() == self.black_height(),
            out.is_balanced() == self.is_balanced(),
            self.no_red_red() ==> out == self,
            self.is_black() && self.left().no_red_red_below() && self.right().no_red_red_below() && (
            self.left().no_red_red() || self.right().no_red_red()) ==> out.no_red_red(),
            total_order::<T>() && self.is_bst() ==> out.is_bst(),
    {
        proof {
            self.lemma_balance_keeps_keys();
            self.lemma_balance_keeps_black_height();
            if self.no_red_red() {
                self.lemma_balance_identity();
            }
            if self.is_black() && self.left().no_red_red_below() && self.right().no_red_red_below()
                && (self.left().no_red_red() || self.right().no_red_red()) {
                self.lemma_balance_removes_red_red();
            }
        }
        if !self.is_black_node() {
            return self;
        }
        let l = self.left_child();
        let r = self.right_child();
        let left_left = l.is_red_node() && l.left_child().is_red_node();
        let left_right = l.is_red_node() && l.right_child().is_red_node();
        let right_left = r.is_red_node() && r.left_child().is_red_node();
        let right_right = r.is_red_node() && r.right_child().is_red_node();
        if left_left {
            self.lift_left(Color::Red)
        } else if left_right {
            self.lift_left_inner(Color::Red)
        } else if right_left {
            self.lift_right_inner(Color::Red)
        } else if right_right {
            self.lift_right(Color::Red)
        } else {
            self
        }
    }
}

} // verus!
