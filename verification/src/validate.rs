//! Testing at run time whether a tree that was put together by hand is a
//! search tree, which is what the operations ask of their argument.

use crate::order::{lt, total_order};
use crate::tree::RBT;
use vstd::prelude::*;

verus! {

impl<T: PartialEq + PartialOrd + Clone> RBT<T> {
    /// Every key is above `lo` and below `hi`, where these are given.
    pub open spec fn between(self, lo: Option<&T>, hi: Option<&T>) -> bool {
        forall|k: T| #[trigger]
            self.keys().contains(k) ==> {
                &&& lo matches Some(a) ==> lt(*a, k)
                &&& hi matches Some(b) ==> lt(k, *b)
            }
    }

    fn is_search_tree_between(&self, lo: Option<&T>, hi: Option<&T>) -> (ok: bool)
        requires
            total_order::<T>(),
        ensures
            ok == (self.is_bst() && self.between(lo, hi)),
        decreases self,
    {
        match self {
            RBT::Leaf => true,
            RBT::Node(_, l, x, r) => {
                let above = match lo {
                    Some(a) => *a < *x,
                    None => true,
                };
                let below = match hi {
                    Some(b) => *x < *b,
                    None => true,
                };
                proof {
                    assert(self.keys().contains(*x));
                    assert(lo matches Some(a) ==> above == lt(*a, *x));
                    assert(hi matches Some(b) ==> below == lt(*x, *b));
                }
                if !above || !below {
                    return false;
                }
                if !l.is_search_tree_between(lo, Some(x)) {
                    proof {
                        if l.is_bst() {
                            let k = choose|k: T|
                                l.keys().contains(k) && !((lo matches Some(a) ==> lt(*a, k)) && lt(
                                    k,
                                    *x,
                                ));
                            assert(self.keys().contains(k));
                        }
                    }
                    return false;
                }
                if !r.is_search_tree_between(Some(x), hi) {
                    proof {
                        if r.is_bst() {
                            let k = choose|k: T|
                                r.keys().contains(k) && !(lt(*x, k) && (hi matches Some(b) ==> lt(
                                    k,
                                    *b,
                                )));
                            assert(self.keys().contains(k));
                        }
                    }
                    return false;
                }
                proof {
                    assert forall|k: T| #[trigger] self.keys().contains(k) implies {
                        &&& lo matches Some(a) ==> lt(*a, k)
                        &&& hi matches Some(b) ==> lt(k, *b)
                    } by {
                        if l.keys().contains(k) {
                            assert(lt(k, *x));
                        } else if r.keys().contains(k) {
                            assert(lt(*x, k));
                        }
                    }
                }
                true
            },
        }
    }

    /// Whether the keys are in search-tree order.
    pub fn is_search_tree(&self) -> (ok: bool)
        requires
            total_order::<T>(),
        ensures
            ok == self.is_bst(),
    {
        self.is_search_tree_between(None, None)
    }
}

} // verus!
