//! How the three descriptions of a tree's contents fit together: the
//! in-order sequence, the set of keys, and the ordering between a node and
//! its subtrees.

use crate::order::{lt, total_order};
use crate::tree::{increasing, RBT};
use vstd::prelude::*;

verus! {

impl<T: PartialEq + PartialOrd + Clone> RBT<T> {
    /// The in-order sequence of a node, position by position.
    pub proof fn lemma_in_order_node(self)
        requires
            self is Node,
        ensures
            self@.len() == self.left()@.len() + 1 + self.right()@.len(),
            forall|i: int| 0 <= i < self.left()@.len() ==> self@[i] == self.left()@[i],
            self@[self.left()@.len() as int] == self.key(),
            forall|j: int|
                0 <= j < self.right()@.len() ==> #[trigger] self@[self.left()@.len() + 1 + j]
                    == self.right()@[j],
    {
    }

    /// The set of keys is the set of entries of the in-order sequence.
    pub proof fn lemma_keys_in_order(self)
        ensures
            forall|k: T| self.keys().contains(k) <==> self@.contains(k),
            self.keys() == self@.to_set(),
        decreases self,
    {
        match self {
            RBT::Leaf => {},
            RBT::Node(_, l, x, r) => {
                l.lemma_keys_in_order();
                r.lemma_keys_in_order();
                self.lemma_in_order_node();
                let n = l@.len() as int;
                assert forall|k: T| self.keys().contains(k) <==> self@.contains(k) by {
                    if l.keys().contains(k) {
                        let i = choose|i: int| 0 <= i < l@.len() && l@[i] == k;
                        assert(self@[i] == k);
                    }
                    if k == x {
                        assert(self@[n] == k);
                    }
                    if r.keys().contains(k) {
                        let j = choose|j: int| 0 <= j < r@.len() && r@[j] == k;
                        assert(self@[n + 1 + j] == k);
                    }
                    if self@.contains(k) {
                        let i = choose|i: int| 0 <= i < self@.len() && self@[i] == k;
                        if i < n {
                            assert(l@[i] == k);
                        } else if i > n {
                            assert(self@[n + 1 + (i - n - 1)] == r@[i - n - 1]);
                            assert(r@[i - n - 1] == k);
                        }
                    }
                }
            },
        }
        assert(self.keys() =~= self@.to_set());
    }

    /// A tree is a search tree exactly when its in-order sequence is
    /// strictly increasing.
    pub proof fn lemma_bst_iff_increasing(self)
        requires
            total_order::<T>(),
        ensures
            self.is_bst() <==> increasing(self@),
        decreases self,
    {
        match self {
            RBT::Leaf => {},
            RBT::Node(_, l, x, r) => {
                l.lemma_bst_iff_increasing();
                r.lemma_bst_iff_increasing();
                l.lemma_keys_in_order();
                r.lemma_keys_in_order();
                self.lemma_in_order_node();
                let n = l@.len() as int;
                let s = self@;
                if self.is_bst() {
                    assert forall|i: int, j: int| 0 <= i < j < s.len() implies lt(s[i], s[j]) by {
                        if i < n {
                            assert(l@.contains(l@[i]));
                            assert(lt(s[i], x));
                        } else if i > n {
                            assert(s[n + 1 + (i - n - 1)] == r@[i - n - 1]);
                        }
                        if j > n {
                            assert(s[n + 1 + (j - n - 1)] == r@[j - n - 1]);
                            assert(r@.contains(r@[j - n - 1]));
                            assert(lt(x, s[j]));
                        }
                    }
                }
                if increasing(s) {
                    assert forall|i: int, j: int| 0 <= i < j < l@.len() implies lt(
                        l@[i],
                        l@[j],
                    ) by {
                        assert(lt(s[i], s[j]));
                    }
                    assert forall|i: int, j: int| 0 <= i < j < r@.len() implies lt(
                        r@[i],
                        r@[j],
                    ) by {
                        assert(lt(s[n + 1 + i], s[n + 1 + j]));
                    }
                    assert forall|k: T| l.keys().contains(k) implies lt(k, x) by {
                        let i = choose|i: int| 0 <= i < l@.len() && l@[i] == k;
                        assert(lt(s[i], s[n]));
                    }
                    assert forall|k: T| r.keys().contains(k) implies lt(x, k) by {
                        let j = choose|j: int| 0 <= j < r@.len() && r@[j] == k;
                        assert(lt(s[n], s[n + 1 + j]));
                    }
                }
            },
        }
    }

    /// Two trees with the same in-order sequence hold the same keys, and
    /// one is a search tree if the other is.
    pub proof fn lemma_same_order(self, other: RBT<T>)
        requires
            self@ == other@,
        ensures
            self.keys() == other.keys(),
            total_order::<T>() ==> (self.is_bst() <==> other.is_bst()),
    {
        self.lemma_keys_in_order();
        other.lemma_keys_in_order();
        if total_order::<T>() {
            self.lemma_bst_iff_increasing();
            other.lemma_bst_iff_increasing();
        }
    }
}

} // verus!
