//! The tree itself: its shape, what it holds, and what makes it a
//! red-black search tree.

use crate::order::lt;
use vstd::prelude::*;

verus! {

/// The colour of a node. An empty tree counts as black.
#[derive(Clone, Copy, Debug, PartialEq, Eq, Structural)]
pub enum Color {
    Red,
    Black,
}

/// A persistent binary search tree with coloured nodes: either a node
/// with a colour, a left subtree, a key and a right subtree, or the empty
/// tree. Every operation that changes a tree takes it by value and gives
/// back a new one; `clone` keeps the old one.
#[derive(Debug, PartialEq)]
pub enum RBT<T: PartialEq + PartialOrd + Clone> {
    Node(Color, Box<RBT<T>>, T, Box<RBT<T>>),
    Leaf,
}

/// The node with the given colour, children and key.
pub open spec fn node<T: PartialEq + PartialOrd + Clone>(
    c: Color,
    l: RBT<T>,
    x: T,
    r: RBT<T>,
) -> RBT<T> {
    RBT::Node(c, Box::new(l), x, Box::new(r))
}

/// What a node of colour `c` adds to the black height: 1 for black, 0 for
/// red.
pub open spec fn black_count(c: Color) -> nat {
    if c == Color::Black {
        1
    } else {
        0
    }
}

/// `s` is strictly increasing.
pub open spec fn increasing<T: PartialOrd>(s: Seq<T>) -> bool {
    forall|i: int, j: int| 0 <= i < j < s.len() ==> lt(#[trigger] s[i], #[trigger] s[j])
}

impl<T: PartialEq + PartialOrd + Clone> RBT<T> {
    /// The colour of the root; black for the empty tree.
    pub open spec fn color(self) -> Color {
        match self {
            RBT::Node(c, _, _, _) => c,
            RBT::Leaf => Color::Black,
        }
    }

    /// The left subtree; empty for the empty tree.
    pub open spec fn left(self) -> RBT<T> {
        match self {
            RBT::Node(_, l, _, _) => *l,
            RBT::Leaf => RBT::Leaf,
        }
    }

    /// The right subtree; empty for the empty tree.
    pub open spec fn right(self) -> RBT<T> {
        match self {
            RBT::Node(_, _, _, r) => *r,
            RBT::Leaf => RBT::Leaf,
        }
    }

    /// The key at the root of a non-empty tree.
    pub open spec fn key(self) -> T
        recommends
            self is Node,
    {
        self->2
    }

    /// The root is a red node.
    pub open spec fn is_red(self) -> bool {
        self is Node && self.color() == Color::Red
    }

    /// The root is a black node (the empty tree is not a node).
    pub open spec fn is_black(self) -> bool {
        self is Node && self.color() == Color::Black
    }

    /// The same tree with its root given the colour `c`; the empty tree
    /// stays empty.
    pub open spec fn painted(self, c: Color) -> RBT<T> {
        match self {
            RBT::Node(_, l, x, r) => RBT::Node(c, l, x, r),
            RBT::Leaf => RBT::Leaf,
        }
    }

    /// The keys in the order of an in-order walk: left subtree, root,
    /// right subtree.
    pub open spec fn in_order(self) -> Seq<T>
        decreases self,
    {
        match self {
            RBT::Leaf => Seq::empty(),
            RBT::Node(_, l, x, r) => l.in_order().push(x) + r.in_order(),
        }
    }

    /// The set of keys held.
    pub open spec fn keys(self) -> Set<T>
        decreases self,
    {
        match self {
            RBT::Leaf => Set::empty(),
            RBT::Node(_, l, x, r) => l.keys().union(r.keys()).insert(x),
        }
    }

    /// Search-tree ordering: at every node the keys on the left are below
    /// the node's key and the keys on the right are above it.
    pub open spec fn is_bst(self) -> bool
        decreases self,
    {
        match self {
            RBT::Leaf => true,
            RBT::Node(_, l, x, r) => {
                &&& l.is_bst()
                &&& r.is_bst()
                &&& forall|k: T| #[trigger] l.keys().contains(k) ==> lt(k, x)
                &&& forall|k: T| #[trigger] r.keys().contains(k) ==> lt(x, k)
            },
        }
    }

    /// No red node has a red child.
    pub open spec fn no_red_red(self) -> bool
        decreases self,
    {
        match self {
            RBT::Leaf => true,
            RBT::Node(c, l, _, r) => {
                &&& c == Color::Red ==> !l.is_red() && !r.is_red()
                &&& l.no_red_red()
                &&& r.no_red_red()
            },
        }
    }

    /// Below the root no red node has a red child; the root itself may.
    pub open spec fn no_red_red_below(self) -> bool {
        self.left().no_red_red() && self.right().no_red_red()
    }

    /// The number of black nodes on the leftmost path from the root to a
    /// leaf. In a balanced tree every path has this many.
    pub open spec fn black_height(self) -> nat
        decreases self,
    {
        match self {
            RBT::Leaf => 0,
            RBT::Node(c, l, _, _) => l.black_height() + black_count(c),
        }
    }

    /// At every node the two subtrees have the same black height.
    pub open spec fn is_balanced(self) -> bool
        decreases self,
    {
        match self {
            RBT::Leaf => true,
            RBT::Node(_, l, _, r) => {
                &&& l.is_balanced()
                &&& r.is_balanced()
                &&& l.black_height() == r.black_height()
            },
        }
    }

    /// The colouring rules of a red-black tree, but for the root's colour.
    pub open spec fn is_red_black(self) -> bool {
        self.no_red_red() && self.is_balanced()
    }

    /// The root is not red.
    pub open spec fn black_rooted(self) -> bool {
        !self.is_red()
    }

    /// Everything that holds of a tree that the public operations keep in
    /// shape: ordering, colouring, balance and a black root.
    pub open spec fn well_formed(self) -> bool {
        &&& self.is_bst()
        &&& self.is_red_black()
        &&& self.black_rooted()
    }

    /// The length of the longest path from the root to a leaf.
    pub open spec fn longest_path(self) -> nat
        decreases self,
    {
        match self {
            RBT::Leaf => 0,
            RBT::Node(_, l, _, r) => 1 + if l.longest_path() >= r.longest_path() {
                l.longest_path()
            } else {
                r.longest_path()
            },
        }
    }

    /// The length of the shortest path from the root to a leaf.
    pub open spec fn shortest_path(self) -> nat
        decreases self,
    {
        match self {
            RBT::Leaf => 0,
            RBT::Node(_, l, _, r) => 1 + if l.shortest_path() <= r.shortest_path() {
                l.shortest_path()
            } else {
                r.shortest_path()
            },
        }
    }

    /// What a search for `x` reports: the key if the tree holds it.
    pub open spec fn lookup(self, x: T) -> Option<T> {
        if self.keys().contains(x) {
            Some(x)
        } else {
            None
        }
    }
}

impl<T: PartialEq + PartialOrd + Clone> View for RBT<T> {
    type V = Seq<T>;

    /// A tree is viewed as the sequence of its keys in order.
    open spec fn view(&self) -> Seq<T> {
        self.in_order()
    }
}

} // verus!
