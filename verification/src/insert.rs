//! Insertion: the descent to an empty slot, and the recolouring and
//! rotation that repair a red node with a red child on the way back up.

use crate::node::{
    balanced, black_height, color_of, lemma_node_content, lemma_node_ordered, link_seq, link_set,
    no_red_red, ordered, painted, red_leaf, Color, Link, Node,
};
use crate::order::total_order;
use crate::rotate::{rotated_left, rotated_right};
use std::cmp::Ordering;
use vstd::prelude::*;
use vstd::std_specs::cmp::OrdSpec;

verus! {

/// The state of a subtree into which a red leaf has just been put and
/// whose root has not been looked at yet: below the root no red node has a
/// red child, and a red root has at most one red child.
pub open spec fn almost_no_red_red<T: Ord>(link: Link<T>) -> bool {
    match link {
        None => true,
        Some(node) => {
            &&& no_red_red(node.left_child)
            &&& no_red_red(node.right_child)
            &&& node.color == Color::Red ==> color_of(node.left_child) == Color::Black || color_of(
                node.right_child,
            ) == Color::Black
        },
    }
}

/// A red node with a red child: the one defect that an insertion can leave.
pub open spec fn red_red_at_root<T: Ord>(link: Link<T>) -> bool {
    match link {
        None => false,
        Some(node) => node.color == Color::Red && (color_of(node.left_child) == Color::Red
            || color_of(node.right_child) == Color::Red),
    }
}

/// What holds at a node after an insertion below one of its children: both
/// subtrees are as [`almost_no_red_red`] says, at most one of them has a
/// red root with a red child, and a red node has no defect below it and at
/// most one red child.
pub open spec fn one_defect_below<T: Ord>(link: Link<T>) -> bool {
    match link {
        None => true,
        Some(node) => {
            &&& almost_no_red_red(node.left_child)
            &&& almost_no_red_red(node.right_child)
            &&& no_red_red(node.left_child) || no_red_red(node.right_child)
            &&& node.color == Color::Red ==> almost_no_red_red(link) && no_red_red(node.left_child)
                && no_red_red(node.right_child)
        },
    }
}

/// The repair of a node whose left child is red and has a red child.
///
/// Where the right child (the uncle of the red grandchild) is red too,
/// both children turn black and the node turns red. Where the uncle is
/// black, a red grandchild on the inside is first rotated to the outside;
/// then the left child turns black, the node turns red, and the node is
/// rotated to the right.
pub open spec fn repaired_left<T: Ord>(link: Link<T>) -> Link<T> {
    match link {
        None => None,
        Some(node) => if color_of(node.right_child) == Color::Red {
            Some(
                Box::new(
                    Node {
                        value: node.value,
                        color: Color::Red,
                        left_child: painted(node.left_child, Color::Black),
                        right_child: painted(node.right_child, Color::Black),
                    },
                ),
            )
        } else {
            let outside = if node.left_child is Some && color_of(node.left_child->0.left_child)
                == Color::Black {
                rotated_left(node.left_child)
            } else {
                node.left_child
            };
            rotated_right(
                Some(
                    Box::new(
                        Node {
                            value: node.value,
                            color: Color::Red,
                            left_child: painted(outside, Color::Black),
                            right_child: node.right_child,
                        },
                    ),
                ),
            )
        },
    }
}

/// What [`lemma_repaired_left`] says, where the uncle is red.
proof fn lemma_repaired_left_recoloured<T: Ord>(link: Link<T>)
    requires
        link is Some,
        link->0.color == Color::Black,
        red_red_at_root(link->0.left_child),
        almost_no_red_red(link->0.left_child),
        no_red_red(link->0.right_child),
        balanced(link),
        color_of(link->0.right_child) == Color::Red,
    ensures
        link_seq(repaired_left(link)) == link_seq(link),
        no_red_red(repaired_left(link)),
        balanced(repaired_left(link)),
        black_height(repaired_left(link)) == black_height(link),
{
    reveal_with_fuel(link_seq, 3);
    reveal_with_fuel(no_red_red, 3);
    reveal_with_fuel(balanced, 3);
    reveal_with_fuel(black_height, 3);
}

/// What [`lemma_repaired_left`] says, where the uncle is black.
proof fn lemma_repaired_left_rotated<T: Ord>(link: Link<T>)
    requires
        link is Some,
        link->0.color == Color::Black,
        red_red_at_root(link->0.left_child),
        almost_no_red_red(link->0.left_child),
        no_red_red(link->0.right_child),
        balanced(link),
        color_of(link->0.right_child) == Color::Black,
    ensures
        link_seq(repaired_left(link)) == link_seq(link),
        no_red_red(repaired_left(link)),
        balanced(repaired_left(link)),
        black_height(repaired_left(link)) == black_height(link),
{
    reveal_with_fuel(link_seq, 3);
    reveal_with_fuel(no_red_red, 3);
    reveal_with_fuel(balanced, 3);
    reveal_with_fuel(black_height, 3);
}

/// The repair by [`repaired_left`] removes the defect: it keeps the values
/// in their order, leaves no red node with a red child, and keeps the
/// black height of every path.
pub proof fn lemma_repaired_left<T: Ord>(link: Link<T>)
    requires
        link is Some,
        link->0.color == Color::Black,
        red_red_at_root(link->0.left_child),
        almost_no_red_red(link->0.left_child),
        no_red_red(link->0.right_child),
        balanced(link),
    ensures
        link_seq(repaired_left(link)) == link_seq(link),
        no_red_red(repaired_left(link)),
        balanced(repaired_left(link)),
        black_height(repaired_left(link)) == black_height(link),
{
    if color_of(link->0.right_child) == Color::Red {
        lemma_repaired_left_recoloured(link);
    } else {
        lemma_repaired_left_rotated(link);
    }
}

/// The mirror image of [`repaired_left`].
pub open spec fn repaired_right<T: Ord>(link: Link<T>) -> Link<T> {
    match link {
        None => None,
        Some(node) => if color_of(node.left_child) == Color::Red {
            Some(
                Box::new(
                    Node {
                        value: node.value,
                        color: Color::Red,
                        left_child: painted(node.left_child, Color::Black),
                        right_child: painted(node.right_child, Color::Black),
                    },
                ),
            )
        } else {
            let outside = if node.right_child is Some && color_of(node.right_child->0.right_child)
                == Color::Black {
                rotated_right(node.right_child)
            } else {
                node.right_child
            };
            rotated_left(
                Some(
                    Box::new(
                        Node {
                            value: node.value,
                            color: Color::Red,
                            left_child: node.left_child,
                            right_child: painted(outside, Color::Black),
                        },
                    ),
                ),
            )
        },
    }
}

/// What [`lemma_repaired_right`] says, where the uncle is red.
proof fn lemma_repaired_right_recoloured<T: Ord>(link: Link<T>)
    requires
        link is Some,
        link->0.color == Color::Black,
        red_red_at_root(link->0.right_child),
        almost_no_red_red(link->0.right_child),
        no_red_red(link->0.left_child),
        balanced(link),
        color_of(link->0.left_child) == Color::Red,
    ensures
        link_seq(repaired_right(link)) == link_seq(link),
        no_red_red(repaired_right(link)),
        balanced(repaired_right(link)),
        black_height(repaired_right(link)) == black_height(link),
{
    reveal_with_fuel(link_seq, 3);
    reveal_with_fuel(no_red_red, 3);
    reveal_with_fuel(balanced, 3);
    reveal_with_fuel(black_height, 3);
}

/// What [`lemma_repaired_right`] says, where the uncle is black.
proof fn lemma_repaired_right_rotated<T: Ord>(link: Link<T>)
    requires
        link is Some,
        link->0.color == Color::Black,
        red_red_at_root(link->0.right_child),
        almost_no_red_red(link->0.right_child),
        no_red_red(link->0.left_child),
        balanced(link),
        color_of(link->0.left_child) == Color::Black,
    ensures
        link_seq(repaired_right(link)) == link_seq(link),
        no_red_red(repaired_right(link)),
        balanced(repaired_right(link)),
        black_height(repaired_right(link)) == black_height(link),
{
    reveal_with_fuel(link_seq, 3);
    reveal_with_fuel(no_red_red, 3);
    reveal_with_fuel(balanced, 3);
    reveal_with_fuel(black_height, 3);
}

/// What [`lemma_repaired_left`] says, for the other side.
pub proof fn lemma_repaired_right<T: Ord>(link: Link<T>)
    requires
        link is Some,
        link->0.color == Color::Black,
        red_red_at_root(link->0.right_child),
        almost_no_red_red(link->0.right_child),
        no_red_red(link->0.left_child),
        balanced(link),
    ensures
        link_seq(repaired_right(link)) == link_seq(link),
        no_red_red(repaired_right(link)),
        balanced(repaired_right(link)),
        black_height(repaired_right(link)) == black_height(link),
{
    if color_of(link->0.left_child) == Color::Red {
        lemma_repaired_right_recoloured(link);
    } else {
        lemma_repaired_right_rotated(link);
    }
}

/// The node in a slot after the rebalancing that follows an insertion
/// below it. A red node is left alone, and so is a black node without a
/// defect below it.
pub open spec fn rebalanced<T: Ord>(link: Link<T>) -> Link<T> {
    if color_of(link) == Color::Red || link is None {
        link
    } else if red_red_at_root(link->0.left_child) {
        repaired_left(link)
    } else if red_red_at_root(link->0.right_child) {
        repaired_right(link)
    } else {
        link
    }
}

/// The subtree after the insertion of `value`.
///
/// An empty slot takes a red leaf. A node that holds `value` stays as it
/// is, and with it every node above it. Otherwise the value goes into the
/// left or the right subtree, and the node is rebalanced.
pub open spec fn inserted<T: Ord>(link: Link<T>, value: T) -> Link<T>
    decreases link,
{
    match link {
        None => red_leaf(value),
        Some(node) => match value.cmp_spec(&node.value) {
            Ordering::Less => {
                let below = inserted(node.left_child, value);
                if below == node.left_child {
                    link
                } else {
                    rebalanced(Some(Box::new(Node { left_child: below, ..*node })))
                }
            },
            Ordering::Equal => link,
            Ordering::Greater => {
                let below = inserted(node.right_child, value);
                if below == node.right_child {
                    link
                } else {
                    rebalanced(Some(Box::new(Node { right_child: below, ..*node })))
                }
            },
        },
    }
}

/// Rebalancing keeps the values in their order and the black height of
/// every path. Below a black node it leaves no red node with a red child;
/// a red node it leaves alone.
pub proof fn lemma_rebalanced<T: Ord>(link: Link<T>)
    requires
        one_defect_below(link),
        balanced(link),
    ensures
        link_seq(rebalanced(link)) == link_seq(link),
        balanced(rebalanced(link)),
        black_height(rebalanced(link)) == black_height(link),
        color_of(link) == Color::Black ==> no_red_red(rebalanced(link)),
        color_of(link) == Color::Red ==> rebalanced(link) == link,
{
    if link is Some && color_of(link) == Color::Black {
        if red_red_at_root(link->0.left_child) {
            lemma_repaired_left(link);
        } else if red_red_at_root(link->0.right_child) {
            lemma_repaired_right(link);
        } else {
            assert(no_red_red(link->0.left_child));
            assert(no_red_red(link->0.right_child));
        }
    }
}

/// What an insertion does to a subtree that obeys the rules of a red-black
/// search tree.
///
/// The subtree holds `value` and what it held before, in order. It changes
/// exactly if it did not hold `value`. The black height of every path
/// stays. What is left for the level above is colour alone: a root that was
/// black may have turned red, and a root that was red may have got one red
/// child.
pub proof fn lemma_inserted<T: Ord>(link: Link<T>, value: T)
    requires
        total_order::<T>(),
        ordered(link),
        no_red_red(link),
        balanced(link),
    ensures
        link_set(inserted(link, value)) == link_set(link).insert(value),
        ordered(inserted(link, value)),
        link_set(link).contains(value) <==> inserted(link, value) == link,
        inserted(link, value) is Some,
        balanced(inserted(link, value)),
        black_height(inserted(link, value)) == black_height(link),
        almost_no_red_red(inserted(link, value)),
        color_of(link) == Color::Black ==> no_red_red(inserted(link, value)),
        color_of(link) == Color::Red ==> color_of(inserted(link, value)) == Color::Red,
    decreases link,
{
    reveal_with_fuel(no_red_red, 2);
    match link {
        None => {
            lemma_node_content(red_leaf(value));
        },
        Some(node) => {
            lemma_node_content(link);
            match value.cmp_spec(&node.value) {
                Ordering::Less => {
                    lemma_inserted(node.left_child, value);
                    let grown = Some(
                        Box::new(Node { left_child: inserted(node.left_child, value), ..*node }),
                    );
                    lemma_node_content(grown);
                    if inserted(node.left_child, value) != node.left_child {
                        lemma_node_ordered(grown);
                        lemma_rebalanced(grown);
                    }
                },
                Ordering::Equal => {},
                Ordering::Greater => {
                    lemma_inserted(node.right_child, value);
                    let grown = Some(
                        Box::new(Node { right_child: inserted(node.right_child, value), ..*node }),
                    );
                    lemma_node_content(grown);
                    if inserted(node.right_child, value) != node.right_child {
                        lemma_node_ordered(grown);
                        lemma_rebalanced(grown);
                    }
                },
            }
        },
    }
}

impl<T: Ord> Node<T> {
    /// Whether the slot holds a red node that has a red child.
    pub fn is_red_with_red_child(link: &Link<T>) -> (found: bool)
        ensures
            found == red_red_at_root(*link),
    {
        match link {
            None => false,
            Some(node) => match node.color {
                Color::Black => false,
                Color::Red => match Node::get_color(&node.left_child) {
                    Color::Red => true,
                    Color::Black => match Node::get_color(&node.right_child) {
                        Color::Red => true,
                        Color::Black => false,
                    },
                },
            },
        }
    }

    /// Repairs a black node whose left child is red and has a red child, as
    /// [`repaired_left`] says. After a recolouring the node is red, and the
    /// defect may show again one level up; after a rotation it is gone.
    pub fn balance_after_insert_left(link: &mut Link<T>)
        requires
            *old(link) is Some,
            old(link)->0.color == Color::Black,
            red_red_at_root(old(link)->0.left_child),
            almost_no_red_red(old(link)->0.left_child),
            no_red_red(old(link)->0.right_child),
            balanced(*old(link)),
        ensures
            *final(link) == repaired_left(*old(link)),
            link_seq(*final(link)) == link_seq(*old(link)),
            no_red_red(*final(link)),
            balanced(*final(link)),
            black_height(*final(link)) == black_height(*old(link)),
    {
        let mut turn = false;
        match link {
            None => {},
            Some(node) => {
                match Node::get_color(&node.right_child) {
                    Color::Red => {
                        Node::set_color(&mut node.left_child, Color::Black);
                        Node::set_color(&mut node.right_child, Color::Black);
                        node.color = Color::Red;
                    },
                    Color::Black => {
                        let inside = match &node.left_child {
                            Some(parent) => match Node::get_color(&parent.left_child) {
                                Color::Red => false,
                                Color::Black => true,
                            },
                            None => false,
                        };
                        if inside {
                            Node::rotate_left(&mut node.left_child);
                        }
                        Node::set_color(&mut node.left_child, Color::Black);
                        node.color = Color::Red;
                        turn = true;
                    },
                }
            },
        }
        if turn {
            Node::rotate_right(link);
        }
        proof {
            lemma_repaired_left(*old(link));
        }
    }

    /// The mirror image of [`Node::balance_after_insert_left`].
    pub fn balance_after_insert_right(link: &mut Link<T>)
        requires
            *old(link) is Some,
            old(link)->0.color == Color::Black,
            red_red_at_root(old(link)->0.right_child),
            almost_no_red_red(old(link)->0.right_child),
            no_red_red(old(link)->0.left_child),
            balanced(*old(link)),
        ensures
            *final(link) == repaired_right(*old(link)),
            link_seq(*final(link)) == link_seq(*old(link)),
            no_red_red(*final(link)),
            balanced(*final(link)),
            black_height(*final(link)) == black_height(*old(link)),
    {
        let mut turn = false;
        match link {
            None => {},
            Some(node) => {
                match Node::get_color(&node.left_child) {
                    Color::Red => {
                        Node::set_color(&mut node.right_child, Color::Black);
                        Node::set_color(&mut node.left_child, Color::Black);
                        node.color = Color::Red;
                    },
                    Color::Black => {
                        let inside = match &node.right_child {
                            Some(parent) => match Node::get_color(&parent.right_child) {
                                Color::Red => false,
                                Color::Black => true,
                            },
                            None => false,
                        };
                        if inside {
                            Node::rotate_right(&mut node.right_child);
                        }
                        Node::set_color(&mut node.right_child, Color::Black);
                        node.color = Color::Red;
                        turn = true;
                    },
                }
            },
        }
        if turn {
            Node::rotate_left(link);
        }
        proof {
            lemma_repaired_right(*old(link));
        }
    }

    /// Restores the red-black rules at a node after an insertion somewhere
    /// below one of its children, as [`rebalanced`] says.
    ///
    /// A red node is left alone: its own parent looks at it next. Below a
    /// black node the only possible defect is a red child with a red child,
    /// on one side; it is repaired by recolouring where the uncle is red and
    /// by rotating where the uncle is black.
    pub fn balance_after_insert(link: &mut Link<T>)
        requires
            one_defect_below(*old(link)),
            balanced(*old(link)),
        ensures
            *final(link) == rebalanced(*old(link)),
            link_seq(*final(link)) == link_seq(*old(link)),
            balanced(*final(link)),
            black_height(*final(link)) == black_height(*old(link)),
            color_of(*old(link)) == Color::Black ==> no_red_red(*final(link)),
            color_of(*old(link)) == Color::Red ==> *final(link) == *old(link),
    {
        let (left_defect, right_defect) = match link {
            None => (false, false),
            Some(node) => match node.color {
                Color::Red => (false, false),
                Color::Black => (
                    Node::is_red_with_red_child(&node.left_child),
                    Node::is_red_with_red_child(&node.right_child),
                ),
            },
        };
        if left_defect {
            Node::balance_after_insert_left(link);
        } else if right_defect {
            Node::balance_after_insert_right(link);
        }
        proof {
            lemma_rebalanced(*old(link));
        }
    }

    /// Puts `value` into the subtree in a slot, unless it is there already,
    /// and says whether it was put in. The subtree that results is
    /// [`inserted`].
    ///
    /// The descent compares `value` with each node on its way: smaller goes
    /// left, greater goes right, equal ends the call with the subtree
    /// untouched. At an empty slot a red leaf is attached, and every node
    /// on the way back up is rebalanced. The black height stays what it was.
    /// The one thing that may be left for the caller is colour: a root that
    /// was black may have turned red, and a root that was red may have got
    /// one red child.
    pub fn insert(link: &mut Link<T>, value: T) -> (grew: bool)
        requires
            total_order::<T>(),
            ordered(*old(link)),
            no_red_red(*old(link)),
            balanced(*old(link)),
        ensures
            *final(link) == inserted(*old(link), value),
            link_set(*final(link)) == link_set(*old(link)).insert(value),
            ordered(*final(link)),
            grew == !link_set(*old(link)).contains(value),
            grew == (*final(link) != *old(link)),
            *final(link) is Some,
            balanced(*final(link)),
            black_height(*final(link)) == black_height(*old(link)),
            almost_no_red_red(*final(link)),
            color_of(*old(link)) == Color::Black ==> no_red_red(*final(link)),
            color_of(*old(link)) == Color::Red ==> color_of(*final(link)) == Color::Red,
        decreases *old(link),
    {
        proof {
            reveal_with_fuel(no_red_red, 2);
            lemma_inserted(*link, value);
            if *link is Some {
                lemma_node_content(*link);
            }
        }
        let grew = match link {
            None => {
                *link = Some(Box::new(Node::new(value)));
                true
            },
            Some(node) => match value.cmp(&node.value) {
                Ordering::Less => Node::insert(&mut node.left_child, value),
                Ordering::Equal => false,
                Ordering::Greater => Node::insert(&mut node.right_child, value),
            },
        };
        if grew {
            Node::balance_after_insert(link);
        }
        grew
    }
}

} // verus!
