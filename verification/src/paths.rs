//! Black height, path by path: what `is_balanced` says in terms of the
//! paths from the root to the leaves.

use crate::tree::{black_count, RBT};
use vstd::prelude::*;

verus! {

impl<T: PartialEq + PartialOrd + Clone> RBT<T> {
    /// The number of black nodes on the path that `path` describes, step
    /// by step from the root: `false` goes left, `true` goes right. `None`
    /// unless the path ends exactly at a leaf.
    pub open spec fn blacks_on_path(self, path: Seq<bool>) -> Option<nat>
        decreases self,
    {
        match self {
            RBT::Leaf => if path.len() == 0 {
                Some(0)
            } else {
                None
            },
            RBT::Node(c, l, _, r) => if path.len() == 0 {
                None
            } else {
                let below = if path[0] {
                    r.blacks_on_path(path.drop_first())
                } else {
                    l.blacks_on_path(path.drop_first())
                };
                match below {
                    Some(n) => Some(n + black_count(c)),
                    None => None,
                }
            },
        }
    }

    /// Every path from the root to a leaf passes `black_height()` black
    /// nodes.
    pub open spec fn paths_agree(self) -> bool {
        forall|path: Seq<bool>|
            #![trigger self.blacks_on_path(path)]
            self.blacks_on_path(path) is Some ==> self.blacks_on_path(path) == Some(
                self.black_height(),
            )
    }

    /// The path that always goes left.
    pub open spec fn leftmost_path(self) -> Seq<bool>
        decreases self,
    {
        match self {
            RBT::Leaf => Seq::empty(),
            RBT::Node(_, l, _, _) => seq![false] + l.leftmost_path(),
        }
    }

    /// The leftmost path ends at a leaf and passes `black_height()` black
    /// nodes.
    pub proof fn lemma_leftmost_path(self)
        ensures
            self.blacks_on_path(self.leftmost_path()) == Some(self.black_height()),
        decreases self,
    {
        match self {
            RBT::Leaf => {},
            RBT::Node(_, l, _, _) => {
                l.lemma_leftmost_path();
                assert(self.leftmost_path().drop_first() =~= l.leftmost_path());
            },
        }
    }

    /// A tree is balanced exactly if every path from its root to a leaf
    /// passes the same number of black nodes.
    pub proof fn lemma_balanced_iff_paths_agree(self)
        ensures
            self.is_balanced() <==> self.paths_agree(),
        decreases self,
    {
        match self {
            RBT::Leaf => {},
            RBT::Node(c, l, _, r) => {
                l.lemma_balanced_iff_paths_agree();
                r.lemma_balanced_iff_paths_agree();
                if self.is_balanced() {
                    assert forall|p: Seq<bool>| self.blacks_on_path(p) is Some implies self.blacks_on_path(
                        p,
                    ) == Some(self.black_height()) by {
                        let q = p.drop_first();
                        if p[0] {
                            assert(r.blacks_on_path(q) == Some(r.black_height()));
                        } else {
                            assert(l.blacks_on_path(q) == Some(l.black_height()));
                        }
                    }
                }
                if self.paths_agree() {
                    assert forall|q: Seq<bool>| l.blacks_on_path(q) is Some implies l.blacks_on_path(
                        q,
                    ) == Some(l.black_height()) by {
                        let p = seq![false] + q;
                        assert(p.drop_first() =~= q);
                        assert(self.blacks_on_path(p) is Some);
                    }
                    let m = r.leftmost_path();
                    r.lemma_leftmost_path();
                    assert(r.black_height() == l.black_height()) by {
                        let p = seq![true] + m;
                        assert(p.drop_first() =~= m);
                        assert(self.blacks_on_path(p) is Some);
                    }
                    assert forall|q: Seq<bool>| r.blacks_on_path(q) is Some implies r.blacks_on_path(
                        q,
                    ) == Some(r.black_height()) by {
                        let p = seq![true] + q;
                        assert(p.drop_first() =~= q);
                        assert(self.blacks_on_path(p) is Some);
                    }
                }
            },
        }
    }
}

} // verus!
