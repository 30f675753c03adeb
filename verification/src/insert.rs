//! Insertion: descend to the place of the key, hang a red node there, and
//! repair every node on the way back up; at the end the root is painted
//! black.

use crate::order::{gt, lt, total_order};
use crate::tree::{increasing, node, Color, RBT};
use vstd::prelude::*;

verus! {

impl<T: PartialEq + PartialOrd + Clone> RBT<T> {
    /// The tree with `x` put in, before the root is painted. A tree that
    /// holds `x` already is not rebuilt at the node that holds it.
    pub open spec fn spec_insert_sub(self, x: T) -> RBT<T>
        decreases self,
    {
        match self {
            RBT::Leaf => node(Color::Red, RBT::Leaf, x, RBT::Leaf),
            RBT::Node(c, l, d, r) => if gt(x, d) {
                node(c, *l, d, r.spec_insert_sub(x)).spec_balance()
            } else if lt(x, d) {
                node(c, l.spec_insert_sub(x), d, *r).spec_balance()
            } else {
                self
            },
        }
    }

    /// The tree with `x` put in and the root painted black.
    pub open spec fn spec_insert(self, x: T) -> RBT<T> {
        self.spec_insert_sub(x).painted(Color::Black)
    }

    /// Insertion adds exactly `x` to a search tree and leaves a search
    /// tree, which is never empty.
    pub proof fn lemma_insert_sub_keys(self, x: T)
        requires
            total_order::<T>(),
            self.is_bst(),
        ensures
            self.spec_insert_sub(x) is Node,
            self.spec_insert_sub(x).is_bst(),
            self.spec_insert_sub(x).keys() == self.keys().insert(x),
        decreases self,
    {
        let out = self.spec_insert_sub(x);
        match self {
            RBT::Leaf => {
                reveal_with_fuel(RBT::keys, 2);
                reveal_with_fuel(RBT::is_bst, 2);
                assert(out.keys() =~= self.keys().insert(x));
            },
            RBT::Node(c, l, d, r) => {
                if gt(x, d) {
                    r.lemma_insert_sub_keys(x);
                    let rebuilt = node(c, *l, d, r.spec_insert_sub(x));
                    assert(rebuilt.is_bst());
                    rebuilt.lemma_balance_keeps_keys();
                    assert(rebuilt.keys() =~= self.keys().insert(x));
                } else if lt(x, d) {
                    l.lemma_insert_sub_keys(x);
                    let rebuilt = node(c, l.spec_insert_sub(x), d, *r);
                    assert(rebuilt.is_bst());
                    rebuilt.lemma_balance_keeps_keys();
                    assert(rebuilt.keys() =~= self.keys().insert(x));
                } else {
                    assert(x == d);
                    assert(self.keys() =~= self.keys().insert(x));
                }
            },
        }
    }

    /// Insertion keeps the black height, and keeps a balanced tree
    /// balanced.
    pub proof fn lemma_insert_sub_black_height(self, x: T)
        ensures
            self.spec_insert_sub(x).black_height() == self.black_height(),
            self.is_balanced() ==> self.spec_insert_sub(x).is_balanced(),
        decreases self,
    {
        match self {
            RBT::Leaf => {
                reveal_with_fuel(RBT::black_height, 2);
                reveal_with_fuel(RBT::is_balanced, 2);
            },
            RBT::Node(c, l, d, r) => {
                if gt(x, d) {
                    r.lemma_insert_sub_black_height(x);
                    node(c, *l, d, r.spec_insert_sub(x)).lemma_balance_keeps_black_height();
                } else if lt(x, d) {
                    l.lemma_insert_sub_black_height(x);
                    node(c, l.spec_insert_sub(x), d, *r).lemma_balance_keeps_black_height();
                }
            },
        }
    }

    /// Where no red node has a red child, insertion leaves none below the
    /// root, and none at the root either unless the root was red.
    pub proof fn lemma_insert_sub_red_red(self, x: T)
        requires
            self.no_red_red(),
        ensures
            self.spec_insert_sub(x).no_red_red_below(),
            !self.is_red() ==> self.spec_insert_sub(x).no_red_red(),
        decreases self,
    {
        reveal_with_fuel(RBT::no_red_red, 2);
        match self {
            RBT::Leaf => {},
            RBT::Node(c, l, d, r) => {
                if gt(x, d) {
                    r.lemma_insert_sub_red_red(x);
                    let rebuilt = node(c, *l, d, r.spec_insert_sub(x));
                    if c == Color::Black {
                        rebuilt.lemma_balance_removes_red_red();
                    }
                } else if lt(x, d) {
                    l.lemma_insert_sub_red_red(x);
                    let rebuilt = node(c, l.spec_insert_sub(x), d, *r);
                    if c == Color::Black {
                        rebuilt.lemma_balance_removes_red_red();
                    }
                }
            },
        }
    }

    /// Putting in a key that is there already changes nothing, provided
    /// no red node has a red child.
    pub proof fn lemma_insert_sub_present(self, x: T)
        requires
            total_order::<T>(),
            self.is_bst(),
            self.no_red_red(),
            self.keys().contains(x),
        ensures
            self.spec_insert_sub(x) == self,
        decreases self,
    {
        match self {
            RBT::Leaf => {},
            RBT::Node(c, l, d, r) => {
                if gt(x, d) {
                    assert(!l.keys().contains(x));
                    r.lemma_insert_sub_present(x);
                } else if lt(x, d) {
                    assert(!r.keys().contains(x));
                    l.lemma_insert_sub_present(x);
                }
                self.lemma_balance_identity();
            },
        }
    }

    /// What `insert` does to a search tree: the result is a search tree
    /// with a black root that holds `x` besides the keys it held, and it
    /// obeys each colouring rule that the tree obeyed.
    pub proof fn lemma_insert(self, x: T)
        requires
            total_order::<T>(),
            self.is_bst(),
        ensures
            self.spec_insert(x).is_black(),
            self.spec_insert(x).is_bst(),
            increasing(self.spec_insert(x)@),
            self.spec_insert(x).keys() == self.keys().insert(x),
            self.no_red_red() ==> self.spec_insert(x).no_red_red(),
            self.is_balanced() ==> self.spec_insert(x).is_balanced(),
            self.no_red_red() && self.keys().contains(x) ==> self.spec_insert(x) == self.painted(
                Color::Black,
            ),
    {
        let sub = self.spec_insert_sub(x);
        self.lemma_insert_sub_keys(x);
        self.lemma_insert_sub_black_height(x);
        sub.lemma_painted(Color::Black);
        self.spec_insert(x).lemma_bst_iff_increasing();
        if self.no_red_red() {
            self.lemma_insert_sub_red_red(x);
            if self.keys().contains(x) {
                self.lemma_insert_sub_present(x);
            }
        }
    }

    /// Puts `x` into the tree and repairs on the way back up; the root is
    /// not painted and may come out red with a red child.
    pub fn insert_sub(self, x: T) -> (out: RBT<T>)
        requires
            total_order::<T>(),
            self.is_bst(),
        ensures
            out == self.spec_insert_sub(x),
            out is Node,
            out.is_bst(),
            out.keys() == self.keys().insert(x),
            out.black_height() == self.black_height(),
            self.is_balanced() ==> out.is_balanced(),
            self.no_red_red() ==> out.no_red_red_below(),
            self.no_red_red() && !self.is_red() ==> out.no_red_red(),
            self.no_red_red() && self.keys().contains(x) ==> out == self,
        decreases self,
    {
        proof {
            self.lemma_insert_sub_keys(x);
            self.lemma_insert_sub_black_height(x);
            if self.no_red_red() {
                self.lemma_insert_sub_red_red(x);
                if self.keys().contains(x) {
                    self.lemma_insert_sub_present(x);
                }
            }
        }
        match self {
            RBT::Leaf => RBT::Node(Color::Red, Box::new(RBT::Leaf), x, Box::new(RBT::Leaf)),
            RBT::Node(c, l, d, r) => {
                if x > d {
                    RBT::Node(c, l, d, Box::new((*r).insert_sub(x))).balance()
                } else if x < d {
                    RBT::Node(c, Box::new((*l).insert_sub(x)), d, r).balance()
                } else {
                    RBT::Node(c, l, d, r)
                }
            },
        }
    }

    /// Puts `x` into the tree. A key that is there already is not put in
    /// again.
    pub fn insert(self, x: T) -> (out: RBT<T>)
        requires
            total_order::<T>(),
            self.is_bst(),
        ensures
            out == self.spec_insert(x),
            out.is_black(),
            out.is_bst(),
            increasing(out@),
            out.keys() == self.keys().insert(x),
            self.no_red_red() ==> out.no_red_red(),
            self.is_balanced() ==> out.is_balanced(),
            self.no_red_red() && self.keys().contains(x) ==> out == self.painted(Color::Black),
    {
        proof {
            self.lemma_insert(x);
        }
        self.insert_sub(x).paint(Color::Black)
    }
}

} // verus!
