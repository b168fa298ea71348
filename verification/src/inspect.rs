//! Walks over the whole tree that measure it and test the rules of a
//! red-black search tree on it.

use crate::node::{
    balanced, black_height, lemma_node_content, lemma_node_ordered, link_set, no_red_red,
    ordered, Color, Link, Node,
};
use crate::order::{lt, total_order};
use std::cmp::Ordering;
use vstd::prelude::*;

verus! {

/// The number of nodes on the longest path from a slot down to an empty
/// slot.
pub open spec fn link_height<T: Ord>(link: Link<T>) -> nat
    decreases link,
{
    match link {
        None => 0,
        Some(node) => {
            let left = link_height(node.left_child);
            let right = link_height(node.right_child);
            1 + if left < right {
                right
            } else {
                left
            }
        },
    }
}

/// `value` lies strictly above the bound, if there is one.
pub open spec fn above<T: Ord>(low: Option<&T>, value: T) -> bool {
    match low {
        Some(bound) => lt(*bound, value),
        None => true,
    }
}

/// `value` lies strictly below the bound, if there is one.
pub open spec fn below<T: Ord>(value: T, high: Option<&T>) -> bool {
    match high {
        Some(bound) => lt(value, *bound),
        None => true,
    }
}

/// Every value of the subtree lies strictly between the two bounds, as far
/// as there are bounds.
pub open spec fn between<T: Ord>(link: Link<T>, low: Option<&T>, high: Option<&T>) -> bool {
    forall|e: T| #[trigger] link_set(link).contains(e) ==> above(low, e) && below(e, high)
}

impl<T: Ord> Node<T> {
    /// The height of the subtree in a slot, or `usize::MAX` where the
    /// height is greater than that.
    pub fn height(link: &Link<T>) -> (height: usize)
        ensures
            height == if link_height(*link) <= usize::MAX {
                link_height(*link)
            } else {
                usize::MAX as nat
            },
        decreases *link,
    {
        match link {
            None => 0,
            Some(node) => {
                let left = Node::height(&node.left_child);
                let right = Node::height(&node.right_child);
                let below = if left < right {
                    right
                } else {
                    left
                };
                if below < usize::MAX {
                    below + 1
                } else {
                    usize::MAX
                }
            },
        }
    }

    /// Whether no red node of the subtree has a red child.
    pub fn has_no_red_red(link: &Link<T>) -> (ok: bool)
        ensures
            ok == no_red_red(*link),
        decreases *link,
    {
        match link {
            None => true,
            Some(node) => {
                let children_fit = match node.color {
                    Color::Black => true,
                    Color::Red => Node::get_color(&node.left_child) == Color::Black
                        && Node::get_color(&node.right_child) == Color::Black,
                };
                children_fit && Node::has_no_red_red(&node.left_child) && Node::has_no_red_red(
                    &node.right_child,
                )
            },
        }
    }

    /// Whether two subtrees have the same black height. Both are walked
    /// down their leftmost paths, one black node at a time.
    pub fn same_black_height(a: &Link<T>, b: &Link<T>) -> (same: bool)
        ensures
            same == (black_height(*a) == black_height(*b)),
        decreases *a, *b,
    {
        match a {
            None => match b {
                None => true,
                Some(y) => match y.color {
                    Color::Red => Node::same_black_height(a, &y.left_child),
                    Color::Black => false,
                },
            },
            Some(x) => match x.color {
                Color::Red => Node::same_black_height(&x.left_child, b),
                Color::Black => match b {
                    None => false,
                    Some(y) => match y.color {
                        Color::Red => Node::same_black_height(a, &y.left_child),
                        Color::Black => Node::same_black_height(&x.left_child, &y.left_child),
                    },
                },
            },
        }
    }

    /// Whether every path from the slot down to an empty slot passes the
    /// same number of black nodes.
    pub fn is_balanced(link: &Link<T>) -> (ok: bool)
        ensures
            ok == balanced(*link),
        decreases *link,
    {
        match link {
            None => true,
            Some(node) => Node::is_balanced(&node.left_child) && Node::is_balanced(
                &node.right_child,
            ) && Node::same_black_height(&node.left_child, &node.right_child),
        }
    }

    /// Whether the values of the subtree are in search-tree order and lie
    /// strictly between the two bounds, as far as there are bounds.
    pub fn is_ordered_between(link: &Link<T>, low: Option<&T>, high: Option<&T>) -> (ok: bool)
        requires
            total_order::<T>(),
        ensures
            ok == (ordered(*link) && between(*link, low, high)),
        decreases *link,
    {
        match link {
            None => true,
            Some(node) => {
                proof {
                    lemma_node_content(*link);
                    assert(link_set(*link).contains(node.value));
                }
                let above_low = match low {
                    None => true,
                    Some(bound) => match bound.cmp(&node.value) {
                        Ordering::Less => true,
                        _ => false,
                    },
                };
                let below_high = match high {
                    None => true,
                    Some(bound) => match node.value.cmp(bound) {
                        Ordering::Less => true,
                        _ => false,
                    },
                };
                if !above_low || !below_high {
                    return false;
                }
                let left = Node::is_ordered_between(&node.left_child, low, Some(&node.value));
                let right = Node::is_ordered_between(&node.right_child, Some(&node.value), high);
                proof {
                    if left && right {
                        lemma_node_ordered(*link);
                    } else if ordered(*link) && between(*link, low, high) {
                        assert forall|e: T| #[trigger]
                            link_set(node.left_child).contains(e) implies above(low, e) by {
                            assert(link_set(*link).contains(e));
                        }
                        assert forall|e: T| #[trigger]
                            link_set(node.right_child).contains(e) implies below(e, high) by {
                            assert(link_set(*link).contains(e));
                        }
                    }
                }
                left && right
            },
        }
    }
}

} // verus!
