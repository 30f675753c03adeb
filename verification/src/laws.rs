//! What holds of every tree that the operations build, stated over whole
//! histories of insertions and deletions.

use crate::order::total_order;
use crate::tree::{black_count, increasing, RBT};
use vstd::prelude::*;

verus! {

/// One step of a history: a key put in or a key taken out.
pub enum Step<T> {
    Insert(T),
    Delete(T),
}

/// The tree that a history builds from the empty tree.
pub open spec fn replay<T: PartialEq + PartialOrd + Clone>(steps: Seq<Step<T>>) -> RBT<T>
    decreases steps.len(),
{
    if steps.len() == 0 {
        RBT::Leaf
    } else {
        match steps.last() {
            Step::Insert(k) => replay(steps.drop_last()).spec_insert(k),
            Step::Delete(k) => replay(steps.drop_last()).spec_delete(k),
        }
    }
}

/// The set of keys that a history leaves: each key whose last step put
/// it in.
pub open spec fn replayed_keys<T>(steps: Seq<Step<T>>) -> Set<T>
    decreases steps.len(),
{
    if steps.len() == 0 {
        Set::empty()
    } else {
        match steps.last() {
            Step::Insert(k) => replayed_keys(steps.drop_last()).insert(k),
            Step::Delete(k) => replayed_keys(steps.drop_last()).remove(k),
        }
    }
}

/// Every deletion of the history is one that keeps the colouring rules
/// for the tree that it is applied to.
pub open spec fn deletions_are_sound<T: PartialEq + PartialOrd + Clone>(
    steps: Seq<Step<T>>,
) -> bool {
    forall|i: int|
        0 <= i < steps.len() ==> (#[trigger] steps[i] matches Step::Delete(k) ==> replay(
            steps.take(i),
        ).delete_keeps_colouring(k))
}

/// Whatever the history, the tree it builds is a search tree whose
/// in-order walk is strictly increasing, its root is not red, and it holds
/// exactly the keys that were put in and not taken out since. A search
/// therefore finds every such key and no other.
pub proof fn lemma_replay_ordered<T: PartialEq + PartialOrd + Clone>(steps: Seq<Step<T>>)
    requires
        total_order::<T>(),
    ensures
        replay(steps).is_bst(),
        increasing(replay(steps)@),
        replay(steps).black_rooted(),
        replay(steps).keys() == replayed_keys(steps),
        forall|k: T| #[trigger]
            replay(steps).lookup(k) == if replayed_keys(steps).contains(k) {
                Some(k)
            } else {
                None
            },
    decreases steps.len(),
{
    if steps.len() > 0 {
        let before = replay(steps.drop_last());
        lemma_replay_ordered(steps.drop_last());
        match steps.last() {
            Step::Insert(k) => before.lemma_insert(k),
            Step::Delete(k) => before.lemma_delete(k),
        }
    } else {
        replay(steps).lemma_bst_iff_increasing();
    }
}

/// A history whose deletions are all sound builds a tree in which no red
/// node has a red child and every path from the root to a leaf passes the
/// same number of black nodes, so that its longest path is at most twice
/// as long as its shortest.
pub proof fn lemma_replay_red_black<T: PartialEq + PartialOrd + Clone>(steps: Seq<Step<T>>)
    requires
        total_order::<T>(),
        deletions_are_sound(steps),
    ensures
        replay(steps).no_red_red(),
        replay(steps).is_balanced(),
        replay(steps).paths_agree(),
        replay(steps).well_formed(),
        replay(steps).longest_path() <= 2 * replay(steps).shortest_path(),
    decreases steps.len(),
{
    lemma_replay_ordered(steps);
    if steps.len() > 0 {
        let n = steps.len() - 1;
        let earlier = steps.drop_last();
        let before = replay(earlier);
        assert forall|i: int| 0 <= i < earlier.len() implies (#[trigger] earlier[i] matches Step::Delete(
            k,
        ) ==> replay(earlier.take(i)).delete_keeps_colouring(k)) by {
            assert(earlier.take(i) =~= steps.take(i));
            assert(earlier[i] == steps[i]);
        }
        lemma_replay_red_black(earlier);
        lemma_replay_ordered(earlier);
        assert(steps.take(n) =~= earlier);
        assert(steps[n] == steps.last());
        match steps.last() {
            Step::Insert(k) => before.lemma_insert(k),
            Step::Delete(k) => before.lemma_delete(k),
        }
    }
    replay(steps).lemma_height_bound();
    replay(steps).lemma_balanced_iff_paths_agree();
}

impl<T: PartialEq + PartialOrd + Clone> RBT<T> {
    /// Under the colouring rules no path from the root to a leaf is more
    /// than twice as long as another: the shortest has at least as many
    /// nodes as the black height, the longest at most twice as many, and
    /// a red root adds one to both bounds.
    pub proof fn lemma_height_bound(self)
        requires
            self.no_red_red(),
            self.is_balanced(),
        ensures
            self.longest_path() <= 2 * self.shortest_path(),
            self.longest_path() + black_count(self.color()) <= 2 * self.black_height() + 1,
            self.shortest_path() + black_count(self.color()) >= self.black_height() + 1,
        decreases self,
    {
        match self {
            RBT::Leaf => {},
            RBT::Node(_, l, _, r) => {
                l.lemma_height_bound();
                r.lemma_height_bound();
            },
        }
    }

    /// Putting a key in a second time changes nothing: the tree after the
    /// second insertion is, node for node, the tree after the first. This
    /// needs a tree in which no red node has a red child.
    pub proof fn lemma_insert_twice(self, k: T)
        requires
            total_order::<T>(),
            self.is_bst(),
            self.no_red_red(),
        ensures
            self.spec_insert(k).spec_insert(k) == self.spec_insert(k),
    {
        self.lemma_insert(k);
        self.spec_insert(k).lemma_insert(k);
    }

    /// A search after an insertion finds the new key, and any other key
    /// exactly if it was found before.
    pub proof fn lemma_lookup_after_insert(self, k: T, j: T)
        requires
            total_order::<T>(),
            self.is_bst(),
        ensures
            self.spec_insert(k).is_bst(),
            self.spec_insert(k).lookup(j) == if j == k {
                Some(j)
            } else {
                self.lookup(j)
            },
    {
        self.lemma_insert(k);
    }

    /// A search after a deletion does not find the key that went, and
    /// finds any other key exactly if it was found before.
    pub proof fn lemma_lookup_after_delete(self, k: T, j: T)
        requires
            total_order::<T>(),
            self.is_bst(),
        ensures
            self.spec_delete(k).is_bst(),
            self.spec_delete(k).lookup(j) == if j == k {
                None
            } else {
                self.lookup(j)
            },
    {
        self.lemma_delete(k);
    }
}

} // verus!
