use tree_set::node::{Color, Link, Node};

fn tree(color: Color, left: Link<i32>, value: i32, right: Link<i32>) -> Link<i32> {
    Some(Box::new(Node { value, color, left_child: left, right_child: right }))
}

fn red(left: Link<i32>, value: i32, right: Link<i32>) -> Link<i32> {
    tree(Color::Red, left, value, right)
}

fn black(left: Link<i32>, value: i32, right: Link<i32>) -> Link<i32> {
    tree(Color::Black, left, value, right)
}

fn show(link: &Link<i32>) -> String {
    match link {
        None => ".".to_string(),
        Some(node) => format!(
            "({} {} {} {})",
            match node.color {
                Color::Red => "R",
                Color::Black => "B",
            },
            show(&node.left_child),
            node.value,
            show(&node.right_child)
        ),
    }
}

#[test]
fn new_node_is_a_red_leaf() {
    let node = Node::new(3);
    assert_eq!(node.value, 3);
    assert_eq!(node.color, Color::Red);
    assert!(node.left_child.is_none());
    assert!(node.right_child.is_none());
}

#[test]
fn colour_of_a_slot() {
    assert_eq!(Node::get_color(&None::<Box<Node<i32>>>), Color::Black);
    assert_eq!(Node::get_color(&red(None, 1, None)), Color::Red);
    assert_eq!(Node::get_color(&black(None, 1, None)), Color::Black);
    let mut slot = red(None, 1, None);
    Node::set_color(&mut slot, Color::Black);
    assert_eq!(show(&slot), "(B . 1 .)");
    let mut empty: Link<i32> = None;
    Node::set_color(&mut empty, Color::Red);
    assert!(empty.is_none());
}

#[test]
fn children_are_replaced() {
    let mut node = Node::new(5);
    node.set_left_child(black(None, 1, None));
    node.set_right_child(black(None, 9, None));
    assert_eq!(show(&Some(Box::new(node))), "(R (B . 1 .) 5 (B . 9 .))");
}

#[test]
fn rotation_to_the_left() {
    let mut slot = black(red(None, 1, None), 2, red(black(None, 3, None), 4, black(None, 5, None)));
    Node::rotate_left(&mut slot);
    assert_eq!(show(&slot), "(R (B (R . 1 .) 2 (B . 3 .)) 4 (B . 5 .))");
}

#[test]
fn rotation_to_the_right() {
    let mut slot = black(red(black(None, 1, None), 2, black(None, 3, None)), 4, red(None, 5, None));
    Node::rotate_right(&mut slot);
    assert_eq!(show(&slot), "(R (B . 1 .) 2 (B (B . 3 .) 4 (R . 5 .)))");
}

#[test]
fn rotations_undo_each_other() {
    let mut slot = black(red(None, 1, None), 2, red(None, 3, None));
    let before = show(&slot);
    Node::rotate_left(&mut slot);
    Node::rotate_right(&mut slot);
    assert_eq!(show(&slot), before);
}

#[test]
fn rotation_without_a_child_does_nothing() {
    let mut slot = black(red(None, 1, None), 2, None);
    Node::rotate_left(&mut slot);
    assert_eq!(show(&slot), "(B (R . 1 .) 2 .)");
    let mut slot = black(None, 2, red(None, 3, None));
    Node::rotate_right(&mut slot);
    assert_eq!(show(&slot), "(B . 2 (R . 3 .))");
    let mut empty: Link<i32> = None;
    Node::rotate_left(&mut empty);
    Node::rotate_right(&mut empty);
    assert!(empty.is_none());
}

#[test]
fn insertion_into_an_empty_slot() {
    let mut slot: Link<i32> = None;
    assert!(Node::insert(&mut slot, 7));
    assert_eq!(show(&slot), "(R . 7 .)");
}

#[test]
fn insertion_of_a_present_value() {
    let mut slot = black(red(None, 5, None), 10, red(None, 15, None));
    assert!(!Node::insert(&mut slot, 5));
    assert!(!Node::insert(&mut slot, 10));
    assert!(!Node::insert(&mut slot, 15));
    assert_eq!(show(&slot), "(B (R . 5 .) 10 (R . 15 .))");
}

#[test]
fn insertion_under_a_black_parent() {
    let mut slot = black(None, 10, None);
    assert!(Node::insert(&mut slot, 5));
    assert_eq!(show(&slot), "(B (R . 5 .) 10 .)");
    assert!(Node::insert(&mut slot, 15));
    assert_eq!(show(&slot), "(B (R . 5 .) 10 (R . 15 .))");
}

#[test]
fn insertion_with_a_red_uncle() {
    let mut slot = black(red(None, 5, None), 10, red(None, 15, None));
    assert!(Node::insert(&mut slot, 1));
    assert_eq!(show(&slot), "(R (B (R . 1 .) 5 .) 10 (B . 15 .))");
    let mut slot = black(red(None, 5, None), 10, red(None, 15, None));
    assert!(Node::insert(&mut slot, 12));
    assert_eq!(show(&slot), "(R (B . 5 .) 10 (B (R . 12 .) 15 .))");
}

#[test]
fn insertion_in_a_line() {
    let mut slot = black(red(None, 5, None), 10, None);
    assert!(Node::insert(&mut slot, 1));
    assert_eq!(show(&slot), "(B (R . 1 .) 5 (R . 10 .))");
    let mut slot = black(None, 10, red(None, 15, None));
    assert!(Node::insert(&mut slot, 20));
    assert_eq!(show(&slot), "(B (R . 10 .) 15 (R . 20 .))");
}

#[test]
fn insertion_in_a_zig_zag() {
    let mut slot = black(red(None, 5, None), 10, None);
    assert!(Node::insert(&mut slot, 7));
    assert_eq!(show(&slot), "(B (R . 5 .) 7 (R . 10 .))");
    let mut slot = black(None, 10, red(None, 15, None));
    assert!(Node::insert(&mut slot, 12));
    assert_eq!(show(&slot), "(B (R . 10 .) 12 (R . 15 .))");
}

#[test]
fn defect_moves_up_and_is_rotated_away() {
    // the recolouring at 5 turns it red under the red 10; 20 repairs that by a rotation
    let mut slot = black(
        red(black(red(None, 2, None), 5, red(None, 7, None)), 10, black(None, 15, None)),
        20,
        black(None, 30, None),
    );
    assert!(Node::insert(&mut slot, 1));
    assert_eq!(
        show(&slot),
        "(B (R (B (R . 1 .) 2 .) 5 (B . 7 .)) 10 (R (B . 15 .) 20 (B . 30 .)))"
    );
}

#[test]
fn rebalancing_leaves_a_red_node_alone() {
    let mut slot = red(black(None, 1, None), 2, black(None, 3, None));
    Node::balance_after_insert(&mut slot);
    assert_eq!(show(&slot), "(R (B . 1 .) 2 (B . 3 .))");
    let mut empty: Link<i32> = None;
    Node::balance_after_insert(&mut empty);
    assert!(empty.is_none());
}

#[test]
fn red_node_with_red_child_is_seen() {
    assert!(!Node::is_red_with_red_child(&None::<Box<Node<i32>>>));
    assert!(!Node::is_red_with_red_child(&red(None, 1, None)));
    assert!(!Node::is_red_with_red_child(&black(red(None, 0, None), 1, None)));
    assert!(Node::is_red_with_red_child(&red(red(None, 0, None), 1, None)));
    assert!(Node::is_red_with_red_child(&red(None, 1, red(None, 2, None))));
}

#[test]
fn removal_from_an_empty_slot() {
    let mut slot: Link<i32> = None;
    assert!(!Node::remove(&mut slot, &1));
    assert!(slot.is_none());
}

#[test]
fn removal_of_an_absent_value() {
    let mut slot = black(red(None, 5, None), 10, red(None, 15, None));
    assert!(!Node::remove(&mut slot, &7));
    assert!(!Node::remove(&mut slot, &20));
    assert_eq!(show(&slot), "(B (R . 5 .) 10 (R . 15 .))");
}

#[test]
fn removal_of_a_red_leaf() {
    let mut slot = black(red(None, 5, None), 10, red(None, 15, None));
    assert!(!Node::remove(&mut slot, &5));
    assert_eq!(show(&slot), "(B . 10 (R . 15 .))");
    assert!(!Node::remove(&mut slot, &15));
    assert_eq!(show(&slot), "(B . 10 .)");
}

#[test]
fn removal_of_a_black_node_with_one_red_child() {
    let mut slot = black(red(None, 5, None), 10, None);
    assert!(!Node::remove(&mut slot, &10));
    assert_eq!(show(&slot), "(B . 5 .)");
    let mut slot = black(None, 10, red(None, 15, None));
    assert!(!Node::remove(&mut slot, &10));
    assert_eq!(show(&slot), "(B . 15 .)");
}

#[test]
fn removal_of_a_black_leaf_shrinks() {
    let mut slot = black(None, 10, None);
    assert!(Node::remove(&mut slot, &10));
    assert!(slot.is_none());
}

#[test]
fn removal_of_a_node_with_two_children() {
    let mut slot = black(red(None, 5, None), 10, red(None, 15, None));
    assert!(!Node::remove(&mut slot, &10));
    assert_eq!(show(&slot), "(B . 5 (R . 15 .))");
    let mut slot = black(
        black(red(None, 2, None), 5, red(None, 7, None)),
        10,
        black(None, 15, None),
    );
    assert!(!Node::remove(&mut slot, &10));
    assert_eq!(show(&slot), "(B (B (R . 2 .) 5 .) 7 (B . 15 .))");
}

#[test]
fn black_sibling_with_black_children_under_red() {
    let mut slot = red(black(None, 5, None), 10, black(None, 15, None));
    assert!(!Node::remove(&mut slot, &5));
    assert_eq!(show(&slot), "(B . 10 (R . 15 .))");
    let mut slot = red(black(None, 5, None), 10, black(None, 15, None));
    assert!(!Node::remove(&mut slot, &15));
    assert_eq!(show(&slot), "(B (R . 5 .) 10 .)");
}

#[test]
fn black_sibling_with_black_children_under_black() {
    let mut slot = black(black(None, 5, None), 10, black(None, 15, None));
    assert!(Node::remove(&mut slot, &5));
    assert_eq!(show(&slot), "(B . 10 (R . 15 .))");
    let mut slot = black(black(None, 5, None), 10, black(None, 15, None));
    assert!(Node::remove(&mut slot, &15));
    assert_eq!(show(&slot), "(B (R . 5 .) 10 .)");
}

#[test]
fn black_sibling_with_red_far_child() {
    let mut slot = red(black(None, 5, None), 10, black(None, 15, red(None, 20, None)));
    assert!(!Node::remove(&mut slot, &5));
    assert_eq!(show(&slot), "(R (B . 10 .) 15 (B . 20 .))");
    let mut slot = black(black(red(None, 1, None), 5, None), 10, black(None, 15, None));
    assert!(!Node::remove(&mut slot, &15));
    assert_eq!(show(&slot), "(B (B . 1 .) 5 (B . 10 .))");
}

#[test]
fn black_sibling_with_red_near_child() {
    let mut slot = black(black(None, 5, None), 10, black(red(None, 12, None), 15, None));
    assert!(!Node::remove(&mut slot, &5));
    assert_eq!(show(&slot), "(B (B . 10 .) 12 (B . 15 .))");
    let mut slot = red(black(None, 5, red(None, 7, None)), 10, black(None, 15, None));
    assert!(!Node::remove(&mut slot, &15));
    assert_eq!(show(&slot), "(R (B . 5 .) 7 (B . 10 .))");
}

#[test]
fn black_sibling_with_two_red_children() {
    let mut slot = black(
        black(None, 5, None),
        10,
        black(red(None, 12, None), 15, red(None, 20, None)),
    );
    assert!(!Node::remove(&mut slot, &5));
    assert_eq!(show(&slot), "(B (B . 10 (R . 12 .)) 15 (B . 20 .))");
}

#[test]
fn red_sibling() {
    let mut slot = black(
        black(None, 5, None),
        10,
        red(black(None, 15, None), 20, black(None, 25, None)),
    );
    assert!(!Node::remove(&mut slot, &5));
    assert_eq!(show(&slot), "(B (B . 10 (R . 15 .)) 20 (B . 25 .))");
    let mut slot = black(
        red(black(None, 1, None), 5, black(None, 7, None)),
        10,
        black(None, 15, None),
    );
    assert!(!Node::remove(&mut slot, &15));
    assert_eq!(show(&slot), "(B (B . 1 .) 5 (B (R . 7 .) 10 .))");
}

#[test]
fn red_sibling_with_a_red_nephew_below() {
    let mut slot = black(
        black(None, 5, None),
        10,
        red(black(None, 15, red(None, 17, None)), 20, black(None, 25, None)),
    );
    assert!(!Node::remove(&mut slot, &5));
    assert_eq!(show(&slot), "(B (R (B . 10 .) 15 (B . 17 .)) 20 (B . 25 .))");
}

#[test]
fn loss_travels_up_until_it_is_made_up() {
    // every node is black: the loss at 1 is passed on by 2 and made up at 4 by a rotation
    let mut slot = black(
        black(black(None, 1, None), 2, black(None, 3, None)),
        4,
        black(
            black(None, 5, None),
            6,
            red(black(None, 7, None), 8, black(None, 9, None)),
        ),
    );
    assert!(!Node::remove(&mut slot, &1));
    assert_eq!(
        show(&slot),
        "(B (B (B . 2 (R . 3 .)) 4 (B . 5 .)) 6 (B (B . 7 .) 8 (B . 9 .)))"
    );
}

#[test]
fn greatest_value_is_taken_out() {
    let mut slot = black(red(None, 5, None), 10, red(None, 15, None));
    assert_eq!(Node::remove_max(&mut slot), (15, false));
    assert_eq!(show(&slot), "(B (R . 5 .) 10 .)");
    assert_eq!(Node::remove_max(&mut slot), (10, false));
    assert_eq!(show(&slot), "(B . 5 .)");
    assert_eq!(Node::remove_max(&mut slot), (5, true));
    assert!(slot.is_none());
}

#[test]
fn node_in_a_slot_is_removed() {
    let mut slot = black(red(None, 5, None), 10, red(None, 15, None));
    assert!(!Node::remove_self(&mut slot));
    assert_eq!(show(&slot), "(B . 5 (R . 15 .))");
    assert!(!Node::remove_self(&mut slot));
    assert_eq!(show(&slot), "(B . 15 .)");
    assert!(Node::remove_self(&mut slot));
    assert!(slot.is_none());
}

#[test]
fn splice_moves_the_child_up() {
    let mut slot = black(None, 10, red(None, 15, None));
    assert_eq!(Node::splice_out(&mut slot), (10, false));
    assert_eq!(show(&slot), "(B . 15 .)");
    let mut slot = red(None, 10, None);
    assert_eq!(Node::splice_out(&mut slot), (10, false));
    assert!(slot.is_none());
    let mut slot = black(None, 10, None);
    assert_eq!(Node::splice_out(&mut slot), (10, true));
    assert!(slot.is_none());
}

#[test]
fn search_in_a_subtree() {
    let slot = black(red(None, 5, None), 10, red(None, 15, None));
    assert!(Node::contains(&slot, &5));
    assert!(Node::contains(&slot, &10));
    assert!(Node::contains(&slot, &15));
    assert!(!Node::contains(&slot, &0));
    assert!(!Node::contains(&slot, &7));
    assert!(!Node::contains(&slot, &12));
    assert!(!Node::contains(&slot, &20));
    assert!(!Node::contains(&None, &10));
}

#[test]
fn ends_of_a_subtree() {
    let slot = black(
        black(red(None, 2, None), 5, red(None, 7, None)),
        10,
        black(None, 15, None),
    );
    let node = slot.as_ref().unwrap();
    assert_eq!(node.min().value, 2);
    assert_eq!(node.max().value, 15);
    let single = Node::new(1);
    assert_eq!(single.min().value, 1);
    assert_eq!(single.max().value, 1);
}

#[test]
fn height_counts_the_longest_path() {
    assert_eq!(Node::height(&None::<Box<Node<i32>>>), 0);
    assert_eq!(Node::height(&black(None, 1, None)), 1);
    assert_eq!(Node::height(&black(red(None, 0, None), 1, None)), 2);
    assert_eq!(
        Node::height(&black(black(None, 0, None), 1, black(None, 3, red(None, 4, None)))),
        3
    );
}

#[test]
fn walk_finds_a_red_child_of_a_red_node() {
    assert!(Node::has_no_red_red(&None::<Box<Node<i32>>>));
    assert!(Node::has_no_red_red(&black(red(None, 0, None), 1, red(None, 2, None))));
    assert!(!Node::has_no_red_red(&red(red(None, 0, None), 1, None)));
    assert!(!Node::has_no_red_red(&black(None, 1, red(None, 2, red(None, 3, None)))));
}

#[test]
fn walk_finds_unequal_black_heights() {
    assert!(Node::is_balanced(&None::<Box<Node<i32>>>));
    assert!(Node::is_balanced(&black(red(None, 0, None), 1, None)));
    assert!(!Node::is_balanced(&black(black(None, 0, None), 1, None)));
    assert!(!Node::is_balanced(&black(
        black(None, 0, None),
        1,
        black(None, 2, black(None, 3, None))
    )));
    assert!(Node::same_black_height(&red(black(None, 0, None), 1, None), &black(None, 5, None)));
    assert!(!Node::same_black_height(&red(None, 1, None), &black(None, 5, None)));
    assert!(!Node::same_black_height(&black(None, 5, None), &None));
    assert!(Node::same_black_height(&red(None, 1, None), &None));
}

#[test]
fn walk_finds_values_out_of_order() {
    assert!(Node::is_ordered_between(&None::<Box<Node<i32>>>, None, None));
    let slot = black(red(None, 5, None), 10, red(None, 15, None));
    assert!(Node::is_ordered_between(&slot, None, None));
    assert!(Node::is_ordered_between(&slot, Some(&4), Some(&16)));
    assert!(!Node::is_ordered_between(&slot, Some(&5), None));
    assert!(!Node::is_ordered_between(&slot, None, Some(&15)));
    assert!(!Node::is_ordered_between(&black(red(None, 10, None), 10, None), None, None));
    assert!(!Node::is_ordered_between(&black(red(None, 11, None), 10, None), None, None));
    assert!(!Node::is_ordered_between(
        &black(black(None, 5, red(None, 12, None)), 10, black(None, 15, None)),
        None,
        None
    ));
}
