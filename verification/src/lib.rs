//! A persistent ordered set of keys, kept in a red-black tree.
//!
//! [`RBT`] is the tree. `insert`, `delete` and `search` are its
//! operations; `max_height` and `min_height` measure it. Each operation
//! that changes a tree takes it by value and returns the new one.
//!
//! The contracts speak of a tree through its in-order sequence of keys
//! (its view), its set of keys, and the predicates of `tree`: `is_bst`
//! for the ordering, `no_red_red` and `is_balanced` for the colouring.
//! Keys are compared with `<` and `>`, which have to describe a total
//! order (`order`).
//!
//! `insert` keeps all of these. `delete` keeps the ordering always and
//! the colouring exactly where `delete_keeps_colouring` holds (`delete`).
//! `laws` states what follows for whole histories of operations.

pub mod balance;
pub mod delete;
pub mod extremes;
pub mod facts;
pub mod insert;
pub mod laws;
pub mod order;
pub mod paths;
pub mod query;
pub mod rotate;
pub mod shape;
pub mod tree;
pub mod validate;

pub use tree::{Color, RBT};
