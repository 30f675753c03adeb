use rbtree::Color::{Black, Red};
use rbtree::RBT;
use rbtree::RBT::{Leaf, Node};

fn e() -> RBT<i32> {
    Leaf
}

fn red(l: RBT<i32>, x: i32, r: RBT<i32>) -> RBT<i32> {
    Node(Red, Box::new(l), x, Box::new(r))
}

fn black(l: RBT<i32>, x: i32, r: RBT<i32>) -> RBT<i32> {
    Node(Black, Box::new(l), x, Box::new(r))
}

fn build(keys: &[i32]) -> RBT<i32> {
    let mut t = Leaf;
    for k in keys {
        t = t.insert(*k);
    }
    t
}

fn in_order(t: &RBT<i32>) -> Vec<i32> {
    match t {
        Leaf => Vec::new(),
        Node(_, l, x, r) => {
            let mut out = in_order(l);
            out.push(*x);
            out.extend(in_order(r));
            out
        }
    }
}

fn is_red(t: &RBT<i32>) -> bool {
    matches!(t, Node(Red, _, _, _))
}

fn no_red_red(t: &RBT<i32>) -> bool {
    match t {
        Leaf => true,
        Node(c, l, _, r) => {
            (*c == Black || (!is_red(l) && !is_red(r))) && no_red_red(l) && no_red_red(r)
        }
    }
}

/// The number of black nodes on every path to a leaf, if it is the same
/// on all of them.
fn black_height(t: &RBT<i32>) -> Option<u32> {
    match t {
        Leaf => Some(0),
        Node(c, l, _, r) => {
            let a = black_height(l)?;
            let b = black_height(r)?;
            if a == b {
                Some(a + if *c == Black { 1 } else { 0 })
            } else {
                None
            }
        }
    }
}

fn increasing(keys: &[i32]) -> bool {
    keys.windows(2).all(|w| w[0] < w[1])
}

fn well_formed(t: &RBT<i32>) -> bool {
    increasing(&in_order(t)) && no_red_red(t) && black_height(t).is_some() && !is_red(t)
}

fn ten() -> RBT<i32> {
    black(
        black(black(e(), 1, e()), 2, black(e(), 3, e())),
        4,
        black(
            black(e(), 5, e()),
            6,
            red(black(e(), 7, e()), 8, black(e(), 9, red(e(), 10, e()))),
        ),
    )
}

#[test]
fn is_empty_tells_leaf_from_node() {
    assert!(e().is_empty());
    assert!(!black(e(), 1, e()).is_empty());
    assert!(!e().insert(1).is_empty());
}

#[test]
fn insert_into_empty_gives_a_black_node() {
    assert_eq!(e().insert(5), black(e(), 5, e()));
    assert_eq!(e().insert_sub(5), red(e(), 5, e()));
}

#[test]
fn insert_sub_may_leave_a_red_root() {
    let t = black(e(), 1, red(e(), 2, e()));
    let expected = red(black(e(), 1, e()), 2, black(e(), 3, e()));
    assert_eq!(t.clone().insert_sub(3), expected);
    assert_eq!(
        t.insert(3),
        black(black(e(), 1, e()), 2, black(e(), 3, e()))
    );
}

#[test]
fn insert_one_to_ten() {
    assert_eq!(build(&[1, 2, 3, 4, 5, 6, 7, 8, 9, 10]), ten());
}

#[test]
fn insert_keeps_the_tree_well_formed() {
    let orders: [[i32; 8]; 4] = [
        [1, 2, 3, 4, 5, 6, 7, 8],
        [8, 7, 6, 5, 4, 3, 2, 1],
        [4, 2, 6, 1, 3, 5, 7, 8],
        [5, 1, 8, 2, 7, 3, 6, 4],
    ];
    for keys in orders.iter() {
        let mut t = Leaf;
        for k in keys.iter() {
            t = t.insert(*k);
            assert!(well_formed(&t));
        }
        assert_eq!(in_order(&t), vec![1, 2, 3, 4, 5, 6, 7, 8]);
    }
}

#[test]
fn insert_of_a_key_that_is_there_changes_nothing() {
    let t = ten();
    for k in 1..=10 {
        assert_eq!(t.clone().insert(k), t);
    }
    let once = build(&[3, 1, 2]).insert(7);
    assert_eq!(once.clone().insert(7), once);
}

#[test]
fn search_finds_what_was_inserted() {
    let keys = [12, 5, 19, 3, 8, 15, 27, 1, 4, 7];
    let t = build(&keys);
    for k in keys.iter() {
        assert_eq!(t.search(*k), Some(*k));
    }
    for k in [0, 2, 6, 9, 13, 20, 100] {
        assert_eq!(t.search(k), None);
    }
    assert_eq!(e().search(1), None);
}

#[test]
fn search_does_not_find_what_was_deleted() {
    let keys = [12, 5, 19, 3, 8, 15, 27, 1, 4, 7];
    let t = build(&keys);
    for gone in keys.iter() {
        let after = t.clone().delete(*gone);
        assert_eq!(after.search(*gone), None);
        for k in keys.iter() {
            if k != gone {
                assert_eq!(after.search(*k), Some(*k));
            }
        }
    }
}

#[test]
fn heights_of_small_trees() {
    assert_eq!(e().max_height(), 0);
    assert_eq!(e().min_height(), 0);
    let single = black(e(), 1, e());
    assert_eq!(single.max_height(), 1);
    assert_eq!(single.min_height(), 1);
    let lopsided = black(e(), 1, red(e(), 2, e()));
    assert_eq!(lopsided.max_height(), 2);
    assert_eq!(lopsided.min_height(), 1);
    assert_eq!(ten().max_height(), 5);
    assert_eq!(ten().min_height(), 3);
}

#[test]
fn longest_path_is_at_most_twice_the_shortest() {
    let mut t = Leaf;
    for k in 1..=200 {
        t = t.insert((k * 37) % 211);
        assert!(t.max_height() <= 2 * t.min_height());
    }
    let mut t = Leaf;
    for k in 1..=200 {
        t = t.insert(k);
        assert!(t.max_height() <= 2 * t.min_height());
    }
}

#[test]
fn round_trip_one_to_ten() {
    let tree = build(&[1, 2, 3, 4, 5, 6, 7, 8, 9, 10]);
    let without_six = tree.clone().delete(6);
    assert_eq!(in_order(&without_six), vec![1, 2, 3, 4, 5, 7, 8, 9, 10]);
    assert_eq!(
        without_six,
        black(
            black(black(e(), 1, e()), 2, black(e(), 3, e())),
            4,
            black(
                black(e(), 5, red(e(), 7, e())),
                8,
                black(e(), 9, red(e(), 10, e())),
            ),
        )
    );
    let without_nine = tree.clone().delete(9);
    assert_eq!(in_order(&without_nine), vec![1, 2, 3, 4, 5, 6, 7, 8, 10]);
    assert_eq!(
        without_nine,
        black(
            black(black(e(), 1, e()), 2, black(e(), 3, e())),
            4,
            black(
                black(e(), 5, e()),
                6,
                black(red(e(), 7, e()), 8, red(e(), 10, e())),
            ),
        )
    );
    assert!(well_formed(&without_six));
    assert!(well_formed(&without_nine));
    assert_eq!(tree, ten());
    assert_eq!(in_order(&tree), vec![1, 2, 3, 4, 5, 6, 7, 8, 9, 10]);
}

#[test]
fn delete_of_the_only_key_gives_the_empty_tree() {
    assert_eq!(black(e(), 1, e()).delete(1), e());
    assert_eq!(e().insert(42).delete(42), e());
    assert_eq!(black(e(), 1, e()).delete_sub(1), (true, e()));
    assert_eq!(red(e(), 1, e()).delete_sub(1), (false, e()));
}

#[test]
fn delete_from_the_empty_tree_gives_the_empty_tree() {
    assert_eq!(e().delete(1), e());
    assert_eq!(e().delete_sub(1), (false, e()));
}

#[test]
fn delete_of_a_key_that_is_not_there_changes_nothing() {
    let t = ten();
    assert_eq!(t.clone().delete(0), t);
    assert_eq!(t.clone().delete(11), t);
    assert_eq!(t.clone().delete_sub(11), (false, t.clone()));
    let odd = build(&[1, 3, 5, 7]);
    assert_eq!(odd.clone().delete(4), odd);
}

#[test]
fn delete_sub_reports_a_short_subtree() {
    // A black node without children goes: its place is one black node
    // short, and the parent is repaired for it.
    let t = black(black(e(), 1, e()), 2, black(e(), 3, e()));
    assert_eq!(
        t.clone().delete_sub(1),
        (true, black(e(), 2, red(e(), 3, e())))
    );
    assert_eq!(t.delete(1), black(e(), 2, red(e(), 3, e())));
}

#[test]
fn delete_with_a_black_predecessor_next_to_the_key() {
    let t = black(black(e(), 1, e()), 2, black(red(e(), 3, e()), 4, e()));
    let expected = black(black(e(), 1, e()), 3, black(e(), 4, e()));
    assert_eq!(t.clone().delete(2), expected);
    assert!(well_formed(&t.delete(2)));
}

#[test]
fn delete_with_a_red_predecessor_at_the_root() {
    let t = black(red(e(), 1, e()), 2, red(e(), 3, e()));
    assert_eq!(t.clone().delete(2), black(e(), 1, red(e(), 3, e())));
    assert_eq!(
        t.delete_sub(2),
        (true, black(e(), 1, red(e(), 3, e())))
    );
}

#[test]
fn delete_keeps_the_tree_well_formed_where_the_removal_is_sound() {
    let t = ten();
    for k in [0, 1, 2, 3, 5, 6, 7, 8, 9, 10, 11] {
        let after = t.clone().delete(k);
        assert!(well_formed(&after));
    }
}

#[test]
fn delete_with_a_red_predecessor_under_a_black_inner_node() {
    // The black 4 has the red 3 as its predecessor and is not the root:
    // the keys come out right, the black heights do not.
    let t = build(&[1, 2, 4, 3]);
    assert_eq!(
        t,
        black(black(e(), 1, e()), 2, black(red(e(), 3, e()), 4, e()))
    );
    let after = t.delete(4);
    assert_eq!(after, black(red(e(), 1, e()), 2, black(e(), 3, e())));
    assert_eq!(in_order(&after), vec![1, 2, 3]);
    assert!(!is_red(&after));
    assert_eq!(black_height(&after), None);
}

#[test]
fn delete_with_a_black_predecessor_further_down() {
    // The predecessor of 4 is the black 3, two levels down: the keys come
    // out right, the black heights do not.
    let t = ten();
    let after = t.delete(4);
    assert_eq!(in_order(&after), vec![1, 2, 3, 5, 6, 7, 8, 9, 10]);
    assert!(!is_red(&after));
    assert_eq!(black_height(&after), None);
}

#[test]
fn delete_always_keeps_order_and_a_black_root() {
    let keys = [12, 5, 19, 3, 8, 15, 27, 1, 4, 7, 30, 2, 9];
    let mut t = build(&keys);
    let mut left: Vec<i32> = keys.to_vec();
    left.sort();
    for gone in [8, 12, 1, 27, 100, 5, 4, 19, 3, 7, 15, 30, 2, 9] {
        t = t.delete(gone);
        left.retain(|k| *k != gone);
        assert_eq!(in_order(&t), left);
        assert!(!is_red(&t));
    }
    assert_eq!(t, e());
}

#[test]
fn clone_is_a_tree_of_its_own() {
    let t = ten();
    let copy = t.clone();
    assert_eq!(copy, t);
    let changed = copy.insert(11).delete(1);
    assert_eq!(in_order(&changed), vec![2, 3, 4, 5, 6, 7, 8, 9, 10, 11]);
    assert_eq!(t, ten());
}

#[test]
fn is_search_tree_tells_order_from_disorder() {
    assert!(e().is_search_tree());
    assert!(ten().is_search_tree());
    assert!(red(red(e(), 1, e()), 2, red(e(), 3, e())).is_search_tree());
    assert!(!black(black(e(), 2, e()), 1, e()).is_search_tree());
    assert!(!black(e(), 2, black(e(), 2, e())).is_search_tree());
    // 7 is above its parent 3 but not below the root 6.
    assert!(!black(black(e(), 3, black(e(), 7, e())), 6, e()).is_search_tree());
    // 2 is below its parent 5 but not above the root 3.
    assert!(!black(e(), 3, black(black(e(), 2, e()), 5, e())).is_search_tree());
}

#[test]
fn insert_twice_after_a_removal_that_left_a_red_pair() {
    // Taking 5 out leaves the red 3 under the red 2. A later insertion of
    // 5 repairs only what lies on its way, and a second one repairs more.
    let t = build(&[1, 5, 6, 2, 4, 3]).delete(5);
    assert_eq!(
        t,
        black(
            red(black(e(), 1, e()), 2, red(e(), 3, e())),
            4,
            red(e(), 6, e()),
        )
    );
    let once = t.insert(5);
    let twice = once.clone().insert(5);
    assert_eq!(in_order(&once), vec![1, 2, 3, 4, 5, 6]);
    assert_eq!(in_order(&twice), vec![1, 2, 3, 4, 5, 6]);
    assert_eq!(
        once,
        black(
            black(black(e(), 1, e()), 2, e()),
            3,
            black(e(), 4, red(red(e(), 5, e()), 6, e())),
        )
    );
    assert_eq!(
        twice,
        black(
            black(black(e(), 1, e()), 2, e()),
            3,
            red(black(e(), 4, e()), 5, black(e(), 6, e())),
        )
    );
}
