//! The two rotations, the only steps that change the shape of the tree
//! without changing what it holds.

use crate::node::{link_seq, Link, Node};
use vstd::prelude::*;

verus! {

/// The subtree after a left rotation at its root `x`: the right child `y`
/// of `x` takes the place of `x`, `x` becomes the left child of `y`, and
/// what was the left subtree of `y` becomes the right subtree of `x`.
/// Without a right child there is nothing to rotate.
pub open spec fn rotated_left<T: Ord>(link: Link<T>) -> Link<T> {
    match link {
        Some(x) => match x.right_child {
            Some(y) => Some(
                Box::new(
                    Node {
                        value: y.value,
                        color: y.color,
                        left_child: Some(
                            Box::new(
                                Node {
                                    value: x.value,
                                    color: x.color,
                                    left_child: x.left_child,
                                    right_child: y.left_child,
                                },
                            ),
                        ),
                        right_child: y.right_child,
                    },
                ),
            ),
            None => link,
        },
        None => link,
    }
}

/// The mirror image of [`rotated_left`].
pub open spec fn rotated_right<T: Ord>(link: Link<T>) -> Link<T> {
    match link {
        Some(x) => match x.left_child {
            Some(y) => Some(
                Box::new(
                    Node {
                        value: y.value,
                        color: y.color,
                        left_child: y.left_child,
                        right_child: Some(
                            Box::new(
                                Node {
                                    value: x.value,
                                    color: x.color,
                                    left_child: y.right_child,
                                    right_child: x.right_child,
                                },
                            ),
                        ),
                    },
                ),
            ),
            None => link,
        },
        None => link,
    }
}

/// A left rotation keeps the values in their order from left to right.
pub proof fn lemma_rotated_left_seq<T: Ord>(link: Link<T>)
    ensures
        link_seq(rotated_left(link)) == link_seq(link),
{
    reveal_with_fuel(link_seq, 3);
}

/// A right rotation keeps the values in their order from left to right.
pub proof fn lemma_rotated_right_seq<T: Ord>(link: Link<T>)
    ensures
        link_seq(rotated_right(link)) == link_seq(link),
{
    reveal_with_fuel(link_seq, 3);
}

impl<T: Ord> Node<T> {
    /// Rotates the subtree in a slot to the left. The slot is the place of
    /// the old root, so whoever owns it (a parent, or the set) now owns the
    /// new root.
    pub fn rotate_left(link: &mut Link<T>)
        ensures
            *final(link) == rotated_left(*old(link)),
            link_seq(*final(link)) == link_seq(*old(link)),
    {
        if let Some(mut node) = link.take() {
            if let Some(mut child) = node.right_child.take() {
                node.set_right_child(child.left_child.take());
                child.set_left_child(Some(node));
                *link = Some(child);
            } else {
                *link = Some(node);
            }
        }
        proof {
            lemma_rotated_left_seq(*old(link));
        }
    }

    /// Rotates the subtree in a slot to the right.
    pub fn rotate_right(link: &mut Link<T>)
        ensures
            *final(link) == rotated_right(*old(link)),
            link_seq(*final(link)) == link_seq(*old(link)),
    {
        if let Some(mut node) = link.take() {
            if let Some(mut child) = node.left_child.take() {
                node.set_left_child(child.right_child.take());
                child.set_right_child(Some(node));
                *link = Some(child);
            } else {
                *link = Some(node);
            }
        }
        proof {
            lemma_rotated_right_seq(*old(link));
        }
    }
}

} // verus!
