//! Deletion: descend to the key, put its in-order predecessor in its
//! place, and repair on the way back up wherever a subtree is reported one
//! black node short.
//!
//! The ordering of the keys is kept for every search tree. The colouring
//! rules are kept where the report of a loss is right; what decides that
//! is the node that holds the key and the rightmost node of its left
//! subtree, see `removal_is_sound`.

use crate::order::{gt, lt, total_order};
use crate::rotate::debt;
use crate::tree::{increasing, node, Color, RBT};
use vstd::prelude::*;

verus! {

impl<T: PartialEq + PartialOrd + Clone> RBT<T> {
    /// The tree without `x`, before the root is painted, with the flag
    /// that reports it one black node short.
    ///
    /// At the node that holds `x`:
    /// - without a left subtree, the right subtree takes the node's place,
    ///   reported short exactly if the node was black;
    /// - with a black predecessor, the predecessor's key takes the place of
    ///   `x` and the node is repaired for a short left side;
    /// - with a red predecessor, the predecessor's key takes the place of
    ///   `x`, reported short exactly if the node is black.
    ///
    /// Above it, a subtree that comes back reported short has its parent
    /// repaired for that side.
    pub open spec fn spec_delete_sub(self, x: T) -> (bool, RBT<T>)
        decreases self,
    {
        match self {
            RBT::Leaf => (false, RBT::Leaf),
            RBT::Node(c, l, d, r) => if gt(x, d) {
                let (short, rest) = r.spec_delete_sub(x);
                if short {
                    node(c, *l, d, rest).spec_rotate_right()
                } else {
                    (false, node(c, *l, d, rest))
                }
            } else if lt(x, d) {
                let (short, rest) = l.spec_delete_sub(x);
                if short {
                    node(c, rest, d, *r).spec_rotate_left()
                } else {
                    (false, node(c, rest, d, *r))
                }
            } else {
                match l.spec_delete_max() {
                    (_, None) => (c == Color::Black, *r),
                    (rest, Some((Color::Black, m))) => node(c, rest, m, *r).spec_rotate_left(),
                    (rest, Some((Color::Red, m))) => (c == Color::Black, node(c, rest, m, *r)),
                }
            },
        }
    }

    /// The tree without `x`, its root painted black. Taking the last key
    /// out, or any key out of the empty tree, gives the empty tree.
    pub open spec fn spec_delete(self, x: T) -> RBT<T> {
        self.spec_delete_sub(x).1.painted(Color::Black)
    }

    /// Whether taking `x` out keeps the colouring rules. It does if `x` is
    /// not there. At the node that holds `x` it does
    /// - if the node has no left subtree;
    /// - if the rightmost node of the left subtree is black and is the
    ///   left child itself;
    /// - if that rightmost node is red and the node that holds `x` is red,
    ///   or is the root of the whole tree (`at_top`).
    ///
    /// In the other two cases the loss of a black node is placed wrongly:
    /// a black predecessor further down leaves the left subtree uneven
    /// inside, and a red predecessor under a black node is reported as a
    /// loss though nothing was lost.
    pub open spec fn removal_is_sound(self, x: T, at_top: bool) -> bool
        decreases self,
    {
        match self {
            RBT::Leaf => true,
            RBT::Node(c, l, d, r) => if gt(x, d) {
                r.removal_is_sound(x, false)
            } else if lt(x, d) {
                l.removal_is_sound(x, false)
            } else {
                ||| *l is Leaf
                ||| l.last_color() == Color::Black && l.right() is Leaf
                ||| l.last_color() == Color::Red && (c == Color::Red || at_top)
            },
        }
    }

    /// Whether `delete` keeps the colouring rules for this tree and key.
    pub open spec fn delete_keeps_colouring(self, x: T) -> bool {
        self.removal_is_sound(x, true)
    }

    /// Deletion takes exactly `x` out of a search tree and leaves a search
    /// tree.
    pub proof fn lemma_delete_sub_keys(self, x: T)
        requires
            total_order::<T>(),
            self.is_bst(),
        ensures
            self.spec_delete_sub(x).1.is_bst(),
            self.spec_delete_sub(x).1.keys() == self.keys().remove(x),
        decreases self,
    {
        let out = self.spec_delete_sub(x).1;
        match self {
            RBT::Leaf => {
                assert(out.keys() =~= self.keys().remove(x));
            },
            RBT::Node(c, l, d, r) => {
                if gt(x, d) {
                    r.lemma_delete_sub_keys(x);
                    let rest = r.spec_delete_sub(x).1;
                    let rebuilt = node(c, *l, d, rest);
                    assert(rebuilt.is_bst());
                    rebuilt.lemma_rotate_keeps_keys();
                    assert(!l.keys().contains(x));
                    assert(rebuilt.keys() =~= self.keys().remove(x));
                } else if lt(x, d) {
                    l.lemma_delete_sub_keys(x);
                    let rest = l.spec_delete_sub(x).1;
                    let rebuilt = node(c, rest, d, *r);
                    assert(rebuilt.is_bst());
                    rebuilt.lemma_rotate_keeps_keys();
                    assert(!r.keys().contains(x));
                    assert(rebuilt.keys() =~= self.keys().remove(x));
                } else {
                    assert(x == d);
                    assert(!l.keys().contains(x));
                    assert(!r.keys().contains(x));
                    if *l is Node {
                        l.lemma_delete_max_in_order();
                        l.lemma_delete_max_keys();
                        let rest = l.spec_delete_max().0;
                        let m = l@.last();
                        let rebuilt = node(c, rest, m, *r);
                        assert(lt(m, d));
                        assert(rebuilt.is_bst());
                        rebuilt.lemma_rotate_keeps_keys();
                        assert(rebuilt.keys() =~= self.keys().remove(x));
                    } else {
                        assert(l.keys() =~= Set::empty());
                        assert(r.keys() =~= self.keys().remove(x));
                    }
                }
            },
        }
    }

    /// Deleting a key that a search tree does not hold changes nothing and
    /// reports nothing.
    pub proof fn lemma_delete_sub_absent(self, x: T)
        requires
            total_order::<T>(),
            self.is_bst(),
            !self.keys().contains(x),
        ensures
            self.spec_delete_sub(x) == (false, self),
        decreases self,
    {
        match self {
            RBT::Leaf => {},
            RBT::Node(c, l, d, r) => {
                if gt(x, d) {
                    r.lemma_delete_sub_absent(x);
                } else if lt(x, d) {
                    l.lemma_delete_sub_absent(x);
                }
            },
        }
    }

    /// Where the removal is sound, deletion turns a tree that obeys the
    /// colouring rules into one that obeys them. Below the top, the black
    /// height drops by one exactly if the result is reported short, which
    /// happens only to a tree with a black root, and a red root comes out
    /// only of a red root or with that report.
    pub proof fn lemma_delete_sub_repairs(self, x: T, at_top: bool)
        requires
            self.is_red_black(),
            self.removal_is_sound(x, at_top),
        ensures
            self.spec_delete_sub(x).1.is_red_black(),
            !at_top ==> {
                &&& self.spec_delete_sub(x).1.black_height() + debt(self.spec_delete_sub(x).0)
                    == self.black_height()
                &&& self.spec_delete_sub(x).0 ==> self.is_black()
                &&& self.spec_delete_sub(x).1.is_red() ==> self.is_red() || self.spec_delete_sub(
                    x,
                ).0
            },
        decreases self,
    {
        match self {
            RBT::Leaf => {},
            RBT::Node(c, l, d, r) => {
                if gt(x, d) {
                    r.lemma_delete_sub_repairs(x, false);
                    let (short, rest) = r.spec_delete_sub(x);
                    let rebuilt = node(c, *l, d, rest);
                    if short {
                        rebuilt.lemma_rotate_right_repairs();
                    }
                } else if lt(x, d) {
                    l.lemma_delete_sub_repairs(x, false);
                    let (short, rest) = l.spec_delete_sub(x);
                    let rebuilt = node(c, rest, d, *r);
                    if short {
                        rebuilt.lemma_rotate_left_repairs();
                    }
                } else if *l is Node {
                    l.lemma_delete_max_in_order();
                    let rest = l.spec_delete_max().0;
                    let m = l@.last();
                    let rebuilt = node(c, rest, m, *r);
                    if l.last_color() == Color::Black {
                        reveal_with_fuel(RBT::no_red_red, 2);
                        reveal_with_fuel(RBT::is_balanced, 2);
                        reveal_with_fuel(RBT::black_height, 2);
                        assert(rest == l.left());
                        rebuilt.lemma_rotate_left_repairs();
                    } else {
                        l.lemma_delete_max_red();
                    }
                }
            },
        }
    }

    /// Where the removal is not sound, deletion does not keep the
    /// colouring rules: the result is not balanced, or, below the top, it
    /// is in order and as high as before but reported short, which makes
    /// the repair above it leave an unbalanced tree.
    pub proof fn lemma_delete_sub_breaks(self, x: T, at_top: bool)
        requires
            self.is_red_black(),
            !self.removal_is_sound(x, at_top),
        ensures
            !self.spec_delete_sub(x).1.is_balanced() || {
                &&& !at_top
                &&& self.spec_delete_sub(x).0
                &&& self.is_black()
                &&& self.spec_delete_sub(x).1.is_red_black()
                &&& self.spec_delete_sub(x).1.black_height() == self.black_height()
            },
        decreases self,
    {
        reveal_with_fuel(RBT::black_height, 2);
        match self {
            RBT::Leaf => {},
            RBT::Node(c, l, d, r) => {
                if gt(x, d) {
                    r.lemma_delete_sub_breaks(x, false);
                    let rest = r.spec_delete_sub(x).1;
                    let rebuilt = node(c, *l, d, rest);
                    if rest.is_balanced() {
                        rebuilt.lemma_rotate_right_breaks_even_sides();
                    } else {
                        rebuilt.lemma_rotate_keeps_short_side();
                    }
                } else if lt(x, d) {
                    l.lemma_delete_sub_breaks(x, false);
                    let rest = l.spec_delete_sub(x).1;
                    let rebuilt = node(c, rest, d, *r);
                    if rest.is_balanced() {
                        rebuilt.lemma_rotate_left_breaks_even_sides();
                    } else {
                        rebuilt.lemma_rotate_keeps_short_side();
                    }
                } else {
                    l.lemma_delete_max_in_order();
                    let rest = l.spec_delete_max().0;
                    let rebuilt = node(c, rest, l@.last(), *r);
                    if l.last_color() == Color::Black {
                        l.lemma_delete_max_black_below();
                        rebuilt.lemma_rotate_keeps_short_side();
                    } else {
                        l.lemma_delete_max_red();
                    }
                }
            },
        }
    }

    /// Removes `x` and reports whether the result is one black node
    /// short; the root is not painted.
    pub fn delete_sub(self, x: T) -> (out: (bool, RBT<T>))
        requires
            total_order::<T>(),
            self.is_bst(),
        ensures
            out == self.spec_delete_sub(x),
            out.1.is_bst(),
            out.1.keys() == self.keys().remove(x),
            !self.keys().contains(x) ==> out == (false, self),
            self.is_red_black() && self.removal_is_sound(x, false) ==> {
                &&& out.1.is_red_black()
                &&& out.1.black_height() + debt(out.0) == self.black_height()
            },
        decreases self,
    {
        proof {
            self.lemma_delete_sub_keys(x);
            if !self.keys().contains(x) {
                self.lemma_delete_sub_absent(x);
            }
            if self.is_red_black() && self.removal_is_sound(x, false) {
                self.lemma_delete_sub_repairs(x, false);
            }
        }
        match self {
            RBT::Leaf => (false, RBT::Leaf),
            RBT::Node(c, l, d, r) => {
                if x > d {
                    let (short, rest) = (*r).delete_sub(x);
                    let rebuilt = RBT::Node(c, l, d, Box::new(rest));
                    if short {
                        rebuilt.rotate_right()
                    } else {
                        (false, rebuilt)
                    }
                } else if x < d {
                    let (short, rest) = (*l).delete_sub(x);
                    let rebuilt = RBT::Node(c, Box::new(rest), d, r);
                    if short {
                        rebuilt.rotate_left()
                    } else {
                        (false, rebuilt)
                    }
                } else {
                    match (*l).delete_max() {
                        (_, None) => (c == Color::Black, *r),
                        (rest, Some((Color::Black, m))) => RBT::Node(
                            c,
                            Box::new(rest),
                            m,
                            r,
                        ).rotate_left(),
                        (rest, Some((Color::Red, m))) => (
                            c == Color::Black,
                            RBT::Node(c, Box::new(rest), m, r),
                        ),
                    }
                }
            },
        }
    }

    /// What `delete` does to a search tree: the result is a search tree
    /// without a red root that holds the keys it held but `x`. It is empty
    /// exactly if no other key was there, and it is the tree itself, but
    /// for a black root, if `x` was not there. Where the tree obeys the
    /// colouring rules, the result obeys them exactly if the removal is
    /// sound.
    pub proof fn lemma_delete(self, x: T)
        requires
            total_order::<T>(),
            self.is_bst(),
        ensures
            self.spec_delete(x).black_rooted(),
            self.spec_delete(x).is_bst(),
            increasing(self.spec_delete(x)@),
            self.spec_delete(x).keys() == self.keys().remove(x),
            self.spec_delete(x) is Leaf <==> (forall|k: T| self.keys().contains(k) ==> k == x),
            !self.keys().contains(x) ==> self.spec_delete(x) == self.painted(Color::Black),
            self.is_red_black() ==> (self.spec_delete(x).is_red_black()
                <==> self.delete_keeps_colouring(x)),
    {
        self.lemma_delete_sub_keys(x);
        let sub = self.spec_delete_sub(x).1;
        sub.lemma_painted(Color::Black);
        self.spec_delete(x).lemma_bst_iff_increasing();
        if !self.keys().contains(x) {
            self.lemma_delete_sub_absent(x);
        }
        if self.is_red_black() {
            if self.delete_keeps_colouring(x) {
                self.lemma_delete_sub_repairs(x, true);
            } else {
                self.lemma_delete_sub_breaks(x, true);
            }
        }
        if sub is Node {
            sub.lemma_node_has_keys();
            assert(self.keys().contains(sub.key()) && sub.key() != x);
        } else {
            assert(sub.keys() =~= Set::empty());
            assert forall|k: T| self.keys().contains(k) implies k == x by {
                assert(!self.keys().remove(x).contains(k));
            }
        }
    }

    /// Removes `x` from the tree; a tree that does not hold `x` is given
    /// back as it is but for a black root. Taking the last key out, or any
    /// key out of the empty tree, gives the empty tree.
    pub fn delete(self, x: T) -> (out: RBT<T>)
        requires
            total_order::<T>(),
            self.is_bst(),
        ensures
            out == self.spec_delete(x),
            out.black_rooted(),
            out.is_bst(),
            increasing(out@),
            out.keys() == self.keys().remove(x),
            out is Leaf <==> (forall|k: T| self.keys().contains(k) ==> k == x),
            !self.keys().contains(x) ==> out == self.painted(Color::Black),
            self.is_red_black() ==> (out.is_red_black() <==> self.delete_keeps_colouring(x)),
    {
        proof {
            self.lemma_delete(x);
        }
        let (_, rest) = self.delete_sub(x);
        rest.paint(Color::Black)
    }
}

} // verus!
