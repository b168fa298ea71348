//! The descent that reads the tree: membership, and the least and greatest
//! value.

use crate::node::{lemma_node_content, link_seq, link_set, ordered, Link, Node};
use crate::order::total_order;
use std::cmp::Ordering;
use vstd::prelude::*;

verus! {

impl<T: Ord> Node<T> {
    /// Whether the subtree in a slot holds `value`.
    ///
    /// The descent compares `value` with each node on its way: smaller goes
    /// left, greater goes right, equal is a find, and an empty slot is a
    /// miss.
    pub fn contains(link: &Link<T>, value: &T) -> (found: bool)
        requires
            total_order::<T>(),
            ordered(*link),
        ensures
            found == link_set(*link).contains(*value),
        decreases *link,
    {
        match link {
            None => false,
            Some(node) => {
                proof {
                    lemma_node_content(*link);
                }
                match value.cmp(&node.value) {
                    Ordering::Less => Node::contains(&node.left_child, value),
                    Ordering::Equal => true,
                    Ordering::Greater => Node::contains(&node.right_child, value),
                }
            },
        }
    }

    /// The node at the end of the path that always goes left. It holds the
    /// first value of the subtree in order.
    pub fn min(&self) -> (least: &Self)
        ensures
            least.value == link_seq(Some(Box::new(*self))).first(),
            least.left_child is None,
        decreases self,
    {
        proof {
            reveal_with_fuel(link_seq, 2);
        }
        match &self.left_child {
            Some(node) => node.min(),
            None => self,
        }
    }

    /// The node at the end of the path that always goes right. It holds the
    /// last value of the subtree in order.
    pub fn max(&self) -> (greatest: &Self)
        ensures
            greatest.value == link_seq(Some(Box::new(*self))).last(),
            greatest.right_child is None,
        decreases self,
    {
        proof {
            reveal_with_fuel(link_seq, 2);
        }
        match &self.right_child {
            Some(node) => node.max(),
            None => self,
        }
    }
}

} // verus!
