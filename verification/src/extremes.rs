//! Taking the smallest or the largest key out of a tree.

use crate::order::{lt, total_order};
use crate::tree::{node, Color, RBT};
use vstd::prelude::*;

verus! {

impl<T: PartialEq + PartialOrd + Clone> RBT<T> {
    /// The colour of the leftmost node; black for the empty tree.
    pub open spec fn first_color(self) -> Color
        decreases self,
    {
        match self {
            RBT::Leaf => Color::Black,
            RBT::Node(c, l, _, _) => if *l is Leaf {
                c
            } else {
                l.first_color()
            },
        }
    }

    /// The colour of the rightmost node; black for the empty tree.
    pub open spec fn last_color(self) -> Color
        decreases self,
    {
        match self {
            RBT::Leaf => Color::Black,
            RBT::Node(c, _, _, r) => if *r is Leaf {
                c
            } else {
                r.last_color()
            },
        }
    }

    /// The tree without its leftmost node, whose right subtree takes its
    /// place, and that node's colour and key.
    pub open spec fn spec_delete_min(self) -> (RBT<T>, Option<(Color, T)>)
        decreases self,
    {
        match self {
            RBT::Leaf => (RBT::Leaf, None),
            RBT::Node(c, l, x, r) => if *l is Leaf {
                (*r, Some((c, x)))
            } else {
                (node(c, l.spec_delete_min().0, x, *r), l.spec_delete_min().1)
            },
        }
    }

    /// The tree without its rightmost node, whose left subtree takes its
    /// place, and that node's colour and key. Every node above it on the
    /// right spine is put through the insertion-time repair.
    pub open spec fn spec_delete_max(self) -> (RBT<T>, Option<(Color, T)>)
        decreases self,
    {
        match self {
            RBT::Leaf => (RBT::Leaf, None),
            RBT::Node(c, l, x, r) => if *r is Leaf {
                (*l, Some((c, x)))
            } else {
                (node(c, *l, x, r.spec_delete_max().0).spec_balance(), r.spec_delete_max().1)
            },
        }
    }

    /// A node has at least one key.
    pub proof fn lemma_node_has_keys(self)
        requires
            self is Node,
        ensures
            self@.len() > 0,
            self.keys().contains(self.key()),
    {
    }

    /// Taking out the leftmost node gives the first key of the in-order
    /// sequence and leaves the rest of it.
    pub proof fn lemma_delete_min_in_order(self)
        requires
            self is Node,
        ensures
            self.spec_delete_min().1 == Some((self.first_color(), self@.first())),
            self.spec_delete_min().0@ == self@.drop_first(),
        decreases self,
    {
        let l = self.left();
        let r = self.right();
        if l is Node {
            l.lemma_delete_min_in_order();
            l.lemma_node_has_keys();
            let l2 = l.spec_delete_min().0;
            assert(self.spec_delete_min().0@ == l2@.push(self.key()) + r@);
            assert(self@ == l@.push(self.key()) + r@);
        } else {
            assert(self@ == l@.push(self.key()) + r@);
        }
        assert(self.spec_delete_min().0@ =~= self@.drop_first());
    }

    /// Taking out the rightmost node gives the last key of the in-order
    /// sequence and leaves the rest of it.
    pub proof fn lemma_delete_max_in_order(self)
        requires
            self is Node,
        ensures
            self.spec_delete_max().1 == Some((self.last_color(), self@.last())),
            self.spec_delete_max().0@ == self@.drop_last(),
        decreases self,
    {
        let l = self.left();
        let r = self.right();
        assert(self@ == l@.push(self.key()) + r@);
        if r is Node {
            r.lemma_delete_max_in_order();
            r.lemma_node_has_keys();
            let r2 = r.spec_delete_max().0;
            let rebuilt = node(self.color(), l, self.key(), r2);
            rebuilt.lemma_balance_keeps_keys();
            assert(rebuilt@ == l@.push(self.key()) + r2@);
        }
        assert(self.spec_delete_max().0@ =~= self@.drop_last());
    }

    /// In a search tree the key that `spec_delete_max` takes out is the
    /// largest, and what is left is a search tree with the other keys.
    pub proof fn lemma_delete_max_keys(self)
        requires
            total_order::<T>(),
            self.is_bst(),
            self is Node,
        ensures
            self.keys().contains(self@.last()),
            forall|k: T| self.keys().contains(k) && k != self@.last() ==> lt(k, self@.last()),
            self.spec_delete_max().0.keys() == self.keys().remove(self@.last()),
            self.spec_delete_max().0.is_bst(),
    {
        let rest = self.spec_delete_max().0;
        let s = self@;
        let n = s.len() - 1;
        self.lemma_delete_max_in_order();
        self.lemma_node_has_keys();
        self.lemma_keys_in_order();
        self.lemma_bst_iff_increasing();
        rest.lemma_keys_in_order();
        rest.lemma_bst_iff_increasing();
        assert(s[n] == s.last());
        assert forall|k: T| self.keys().contains(k) && k != s.last() implies lt(k, s.last())
            && rest.keys().contains(k) by {
            let i = choose|i: int| 0 <= i < s.len() && s[i] == k;
            assert(lt(s[i], s[n]));
            assert(rest@[i] == k);
        }
        assert forall|k: T| rest.keys().contains(k) implies self.keys().contains(k) && k
            != s.last() by {
            let i = choose|i: int| 0 <= i < rest@.len() && rest@[i] == k;
            assert(s[i] == k);
            assert(lt(s[i], s[n]));
        }
        assert(rest.keys() =~= self.keys().remove(s.last()));
        assert forall|i: int, j: int| 0 <= i < j < rest@.len() implies lt(rest@[i], rest@[j]) by {
            assert(lt(s[i], s[j]));
        }
    }

    /// In a search tree the key that `spec_delete_min` takes out is the
    /// smallest, and what is left is a search tree with the other keys.
    pub proof fn lemma_delete_min_keys(self)
        requires
            total_order::<T>(),
            self.is_bst(),
            self is Node,
        ensures
            self.keys().contains(self@.first()),
            forall|k: T| self.keys().contains(k) && k != self@.first() ==> lt(self@.first(), k),
            self.spec_delete_min().0.keys() == self.keys().remove(self@.first()),
            self.spec_delete_min().0.is_bst(),
    {
        let rest = self.spec_delete_min().0;
        let s = self@;
        self.lemma_delete_min_in_order();
        self.lemma_node_has_keys();
        self.lemma_keys_in_order();
        self.lemma_bst_iff_increasing();
        rest.lemma_keys_in_order();
        rest.lemma_bst_iff_increasing();
        assert(s[0] == s.first());
        assert forall|k: T| self.keys().contains(k) && k != s.first() implies lt(s.first(), k)
            && rest.keys().contains(k) by {
            let i = choose|i: int| 0 <= i < s.len() && s[i] == k;
            assert(lt(s[0], s[i]));
            assert(rest@[i - 1] == k);
        }
        assert forall|k: T| rest.keys().contains(k) implies self.keys().contains(k) && k
            != s.first() by {
            let i = choose|i: int| 0 <= i < rest@.len() && rest@[i] == k;
            assert(s[i + 1] == k);
            assert(lt(s[0], s[i + 1]));
        }
        assert(rest.keys() =~= self.keys().remove(s.first()));
        assert forall|i: int, j: int| 0 <= i < j < rest@.len() implies lt(rest@[i], rest@[j]) by {
            assert(lt(s[i + 1], s[j + 1]));
        }
    }

    /// Taking a red rightmost node out of a tree that obeys the colouring
    /// rules leaves one that obeys them, with the same black height, and
    /// with a red root only if the root was red.
    pub proof fn lemma_delete_max_red(self)
        requires
            self is Node,
            self.is_red_black(),
            self.last_color() == Color::Red,
        ensures
            self.spec_delete_max().0.is_red_black(),
            self.spec_delete_max().0.black_height() == self.black_height(),
            self.spec_delete_max().0.is_red() ==> self.is_red(),
        decreases self,
    {
        let r = self.right();
        if r is Node {
            r.lemma_delete_max_red();
            let rebuilt = node(self.color(), self.left(), self.key(), r.spec_delete_max().0);
            rebuilt.lemma_balance_identity();
        } else {
            assert(self.left().black_height() == 0);
        }
    }

    /// Taking a black rightmost node out from below the root leaves a
    /// tree that is not balanced: the place of that node is one black node
    /// short and nothing above it is told.
    pub proof fn lemma_delete_max_black_below(self)
        requires
            self.is_red_black(),
            self.last_color() == Color::Black,
            self.right() is Node,
        ensures
            !self.spec_delete_max().0.is_balanced(),
        decreases self,
    {
        reveal_with_fuel(RBT::black_height, 2);
        reveal_with_fuel(RBT::is_balanced, 2);
        reveal_with_fuel(RBT::last_color, 2);
        reveal_with_fuel(RBT::spec_delete_max, 2);
        let r = self.right();
        let rebuilt = node(self.color(), self.left(), self.key(), r.spec_delete_max().0);
        if r.right() is Node {
            r.lemma_delete_max_black_below();
        }
        rebuilt.lemma_balance_keeps_black_height();
    }

    /// Removes the smallest key. Gives back the remaining tree and, unless
    /// the tree was empty, the colour of the node that went and its key.
    pub fn delete_min(self) -> (out: (RBT<T>, Option<(Color, T)>))
        ensures
            out == self.spec_delete_min(),
            self is Leaf ==> out.0 is Leaf && out.1 is None,
            self is Node ==> out.1 == Some((self.first_color(), self@.first())),
            self is Node ==> out.0@ == self@.drop_first(),
            total_order::<T>() && self.is_bst() ==> out.0.is_bst(),
            total_order::<T>() && self.is_bst() && self is Node ==> out.0.keys()
                == self.keys().remove(self@.first()),
        decreases self,
    {
        proof {
            if self is Node {
                self.lemma_delete_min_in_order();
                if total_order::<T>() && self.is_bst() {
                    self.lemma_delete_min_keys();
                }
            }
        }
        match self {
            RBT::Leaf => (RBT::Leaf, None),
            RBT::Node(c, l, x, r) => {
                if l.is_empty() {
                    (*r, Some((c, x)))
                } else {
                    let (rest, taken) = (*l).delete_min();
                    (RBT::Node(c, Box::new(rest), x, r), taken)
                }
            },
        }
    }

    /// Removes the largest key. Gives back the remaining tree and, unless
    /// the tree was empty, the colour of the node that went and its key.
    pub fn delete_max(self) -> (out: (RBT<T>, Option<(Color, T)>))
        ensures
            out == self.spec_delete_max(),
            self is Leaf ==> out.0 is Leaf && out.1 is None,
            self is Node ==> out.1 == Some((self.last_color(), self@.last())),
            self is Node ==> out.0@ == self@.drop_last(),
            total_order::<T>() && self.is_bst() ==> out.0.is_bst(),
            total_order::<T>() && self.is_bst() && self is Node ==> out.0.keys()
                == self.keys().remove(self@.last()),
            self is Node && self.is_red_black() && self.last_color() == Color::Red ==> {
                &&& out.0.is_red_black()
                &&& out.0.black_height() == self.black_height()
            },
        decreases self,
    {
        proof {
            if self is Node {
                self.lemma_delete_max_in_order();
                if total_order::<T>() && self.is_bst() {
                    self.lemma_delete_max_keys();
                }
                if self.is_red_black() && self.last_color() == Color::Red {
                    self.lemma_delete_max_red();
                }
            }
        }
        match self {
            RBT::Leaf => (RBT::Leaf, None),
            RBT::Node(c, l, x, r) => {
                if r.is_empty() {
                    (*l, Some((c, x)))
                } else {
                    let (rest, taken) = (*r).delete_max();
                    (RBT::Node(c, l, x, Box::new(rest)).balance(), taken)
                }
            },
        }
    }
}

} // verus!
