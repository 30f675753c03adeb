use rbtree::Color::{Black, Red};
use rbtree::RBT;
use rbtree::RBT::{Leaf, Node};

fn e() -> RBT<i32> {
    Leaf
}

fn red(l: RBT<i32>, x: i32, r: RBT<i32>) -> RBT<i32> {
    Node(Red, Box::new(l), x, Box::new(r))
}

fn black(l: RBT<i32>, x: i32, r: RBT<i32>) -> RBT<i32> {
    Node(Black, Box::new(l), x, Box::new(r))
}

#[test]
fn balance_test() {
    let case1 = Node(
        Black,
        Box::new(Node(
            Red,
            Box::new(Node(Red, Box::new(Leaf), 3, Box::new(Leaf))),
            4,
            Box::new(Leaf),
        )),
        6,
        Box::new(Leaf),
    );
    let result1 = case1.balance();
    let expected_result_1 = Node(
        Red,
        Box::new(Node(Black, Box::new(Leaf), 3, Box::new(Leaf))),
        4,
        Box::new(Node(Black, Box::new(Leaf), 6, Box::new(Leaf))),
    );
    assert_eq!(result1, expected_result_1);
}

#[test]
fn balance_left_right() {
    let t = black(red(black(e(), 1, e()), 2, red(e(), 3, e())), 4, black(e(), 5, e()));
    let expected = red(
        black(black(e(), 1, e()), 2, e()),
        3,
        black(e(), 4, black(e(), 5, e())),
    );
    assert_eq!(t.balance(), expected);
}

#[test]
fn balance_right_left() {
    let t = black(e(), 1, red(red(e(), 2, e()), 3, e()));
    let expected = red(black(e(), 1, e()), 2, black(e(), 3, e()));
    assert_eq!(t.balance(), expected);
}

#[test]
fn balance_right_right() {
    let t = black(e(), 1, red(e(), 2, red(e(), 3, e())));
    let expected = red(black(e(), 1, e()), 2, black(e(), 3, e()));
    assert_eq!(t.balance(), expected);
}

#[test]
fn balance_prefers_the_left_pair() {
    // Both a left-left and a right-right pair: the left one is repaired,
    // the right one goes down unchanged.
    let t = black(
        red(red(e(), 1, e()), 2, e()),
        3,
        red(e(), 4, red(e(), 5, e())),
    );
    let expected = red(
        black(e(), 1, e()),
        2,
        black(e(), 3, red(e(), 4, red(e(), 5, e()))),
    );
    assert_eq!(t.balance(), expected);
}

#[test]
fn balance_leaves_other_shapes_alone() {
    assert_eq!(e().balance(), e());
    let under_red = red(red(red(e(), 1, e()), 2, e()), 3, e());
    assert_eq!(under_red.clone().balance(), under_red);
    let fine = black(red(e(), 1, e()), 2, red(e(), 3, e()));
    assert_eq!(fine.clone().balance(), fine);
    let black_child = black(black(red(e(), 1, e()), 2, e()), 3, e());
    assert_eq!(black_child.clone().balance(), black_child);
}

#[test]
fn rotate_left_black_sibling_red_inner_child() {
    let t = red(e(), 1, black(red(e(), 2, e()), 3, e()));
    let expected = red(black(e(), 1, e()), 2, black(e(), 3, e()));
    assert_eq!(t.rotate_left(), (false, expected));
}

#[test]
fn rotate_left_black_sibling_red_outer_child() {
    let t = black(e(), 1, black(e(), 2, red(e(), 3, e())));
    let expected = black(black(e(), 1, e()), 2, black(e(), 3, e()));
    assert_eq!(t.rotate_left(), (false, expected));
}

#[test]
fn rotate_left_black_sibling_no_red_child() {
    let under_black = black(e(), 1, black(e(), 2, e()));
    assert_eq!(
        under_black.rotate_left(),
        (true, black(e(), 1, red(e(), 2, e())))
    );
    let under_red = red(e(), 1, black(e(), 2, e()));
    assert_eq!(
        under_red.rotate_left(),
        (false, black(e(), 1, red(e(), 2, e())))
    );
}

#[test]
fn rotate_left_red_sibling() {
    let t = black(e(), 1, red(black(e(), 2, e()), 3, black(e(), 4, e())));
    let expected = black(black(e(), 1, red(e(), 2, e())), 3, black(e(), 4, e()));
    assert_eq!(t.rotate_left(), (false, expected));
}

#[test]
fn rotate_left_leaves_other_shapes_alone() {
    assert_eq!(e().rotate_left(), (false, e()));
    let no_sibling = black(black(e(), 1, e()), 2, e());
    assert_eq!(no_sibling.clone().rotate_left(), (false, no_sibling));
    let red_under_red = red(e(), 1, red(e(), 2, e()));
    assert_eq!(red_under_red.clone().rotate_left(), (false, red_under_red));
}

#[test]
fn rotate_right_black_sibling_red_inner_child() {
    let t = red(black(e(), 1, red(e(), 2, e())), 3, e());
    let expected = red(black(e(), 1, e()), 2, black(e(), 3, e()));
    assert_eq!(t.rotate_right(), (false, expected));
}

#[test]
fn rotate_right_black_sibling_red_outer_child() {
    let t = black(black(red(e(), 1, e()), 2, e()), 3, e());
    let expected = black(black(e(), 1, e()), 2, black(e(), 3, e()));
    assert_eq!(t.rotate_right(), (false, expected));
}

#[test]
fn rotate_right_inner_child_comes_first() {
    let t = black(black(red(e(), 1, e()), 2, red(e(), 3, e())), 4, e());
    let expected = black(black(red(e(), 1, e()), 2, e()), 3, black(e(), 4, e()));
    assert_eq!(t.rotate_right(), (false, expected));
}

#[test]
fn rotate_right_black_sibling_no_red_child() {
    let under_black = black(black(e(), 1, e()), 2, e());
    assert_eq!(
        under_black.rotate_right(),
        (true, black(red(e(), 1, e()), 2, e()))
    );
    let under_red = red(black(e(), 1, e()), 2, e());
    assert_eq!(
        under_red.rotate_right(),
        (false, black(red(e(), 1, e()), 2, e()))
    );
}

#[test]
fn rotate_right_red_sibling() {
    let t = black(red(black(e(), 1, e()), 2, black(e(), 3, e())), 4, e());
    let expected = black(black(e(), 1, e()), 2, black(red(e(), 3, e()), 4, e()));
    assert_eq!(t.rotate_right(), (false, expected));
}

#[test]
fn rotate_right_leaves_other_shapes_alone() {
    assert_eq!(e().rotate_right(), (false, e()));
    let no_sibling = black(e(), 1, black(e(), 2, e()));
    assert_eq!(no_sibling.clone().rotate_right(), (false, no_sibling));
}

#[test]
fn delete_min_takes_the_first_key() {
    assert_eq!(e().delete_min(), (e(), None));
    let single = black(e(), 7, e());
    assert_eq!(single.delete_min(), (e(), Some((Black, 7))));
    let t = black(black(e(), 1, red(e(), 2, e())), 3, black(e(), 4, e()));
    let expected = black(red(e(), 2, e()), 3, black(e(), 4, e()));
    assert_eq!(t.delete_min(), (expected, Some((Black, 1))));
    let t = black(red(e(), 1, e()), 2, e());
    assert_eq!(t.delete_min(), (black(e(), 2, e()), Some((Red, 1))));
}

#[test]
fn delete_max_takes_the_last_key() {
    assert_eq!(e().delete_max(), (e(), None));
    let single = red(e(), 7, e());
    assert_eq!(single.delete_max(), (e(), Some((Red, 7))));
    let t = black(black(e(), 1, e()), 2, black(red(e(), 3, e()), 4, e()));
    let expected = black(black(e(), 1, e()), 2, red(e(), 3, e()));
    assert_eq!(t.delete_max(), (expected, Some((Black, 4))));
}

#[test]
fn delete_max_repairs_on_the_way_up() {
    // Taking 4 out brings the red 3 up under the red 2, and the black
    // root above them is repaired.
    let t = black(e(), 1, red(e(), 2, black(red(e(), 3, e()), 4, e())));
    let expected = red(black(e(), 1, e()), 2, black(e(), 3, e()));
    assert_eq!(t.delete_max(), (expected, Some((Black, 4))));
}
