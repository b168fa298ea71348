//! An ordered set of totally ordered values, kept in a red-black tree.
//!
//! [`TreeSet`] offers membership tests, insertion, removal and the least
//! and greatest value, each in time logarithmic in the number of values.
//! What the set holds is its view, a mathematical set; how the tree is
//! shaped is stated by [`TreeSet::wf`], which every operation keeps.
//!
//! A node has no link to its parent. Every operation walks down one path
//! from the root and repairs the tree on its way back up, so it goes no
//! deeper than the tree is high, and by
//! [`laws::law_height_is_logarithmic`] a tree of `n` values is at most
//! `2 * log2(n + 1)` high.

use vstd::prelude::*;

pub mod insert;
pub mod inspect;
pub mod laws;
pub mod node;
pub mod order;
pub mod remove;
pub mod rotate;
pub mod search;

use crate::insert::{inserted, lemma_inserted};
use crate::inspect::link_height;
use crate::node::{
    balanced, color_of, link_seq, link_set, no_red_red, ordered, painted, Color, Link, Node,
};
use crate::order::{
    increasing, lemma_increasing_ends, lemma_increasing_no_duplicates, lt, total_order,
};
use crate::remove::{lemma_removed, removed};

verus! {

/// An ordered set without duplicates.
#[derive(Debug)]
pub struct TreeSet<T: Ord> {
    root: Link<T>,
}

impl<T: Ord> View for TreeSet<T> {
    type V = Set<T>;

    /// The values that the set holds.
    open spec fn view(&self) -> Set<T> {
        link_set(self.tree())
    }
}

impl<T: Ord> TreeSet<T> {
    /// The tree that backs the set: the slot of its root.
    pub closed spec fn tree(&self) -> Link<T> {
        self.root
    }

    /// The values of the set as a walk through the tree from left to right
    /// meets them.
    pub open spec fn in_order(&self) -> Seq<T> {
        link_seq(self.tree())
    }

    /// The tree is a red-black search tree: its values strictly increase
    /// from left to right, its root is black, no red node has a red child,
    /// and every path from a node down to an empty slot passes the same
    /// number of black nodes.
    pub open spec fn wf(&self) -> bool {
        &&& ordered(self.tree())
        &&& color_of(self.tree()) == Color::Black
        &&& no_red_red(self.tree())
        &&& balanced(self.tree())
    }

    /// The set that [`TreeSet::insert`] makes of this one: `value` is put
    /// into the tree as [`inserted`] says, and the root is painted black.
    pub closed spec fn after_insert(self, value: T) -> Self {
        TreeSet { root: painted(inserted(self.root, value), Color::Black) }
    }

    /// The set that [`TreeSet::remove`] makes of this one: `value` is taken
    /// out of the tree as [`removed`] says, and the root is painted black.
    pub closed spec fn after_remove(self, value: T) -> Self {
        TreeSet { root: painted(removed(self.root, value).0, Color::Black) }
    }

    /// The tree of the set after an insertion.
    pub proof fn lemma_after_insert_tree(self, value: T)
        ensures
            self.after_insert(value).tree() == painted(inserted(self.tree(), value), Color::Black),
    {
    }

    /// The tree of the set after a removal.
    pub proof fn lemma_after_remove_tree(self, value: T)
        ensures
            self.after_remove(value).tree() == painted(
                removed(self.tree(), value).0,
                Color::Black,
            ),
    {
    }

    /// Read from left to right, the values of a well-formed set strictly
    /// increase; none occurs twice, and they are the values of the view.
    pub proof fn lemma_in_order(self)
        requires
            total_order::<T>(),
            self.wf(),
        ensures
            increasing(self.in_order()),
            self.in_order().no_duplicates(),
            self.in_order().to_set() == self@,
    {
        lemma_increasing_no_duplicates(self.in_order());
    }

    /// An insertion into a well-formed set leaves a well-formed set that
    /// holds `value` and what the set held before. A set that held `value`
    /// already stays as it is.
    pub proof fn lemma_after_insert(self, value: T)
        requires
            total_order::<T>(),
            self.wf(),
        ensures
            self.after_insert(value).wf(),
            self.after_insert(value)@ == self@.insert(value),
            self@.contains(value) ==> self.after_insert(value) == self,
    {
        lemma_inserted(self.root, value);
    }

    /// A removal from a well-formed set leaves a well-formed set that holds
    /// what the set held before, but for `value`. A set that did not hold
    /// `value` stays as it is.
    pub proof fn lemma_after_remove(self, value: T)
        requires
            total_order::<T>(),
            self.wf(),
        ensures
            self.after_remove(value).wf(),
            self.after_remove(value)@ == self@.remove(value),
            !self@.contains(value) ==> self.after_remove(value) == self,
    {
        lemma_removed(self.root, value);
    }

    /// An empty set.
    pub fn new() -> (set: Self)
        ensures
            set.wf(),
            set.tree() is None,
            set@ == Set::<T>::empty(),
            set.in_order() == Seq::<T>::empty(),
    {
        TreeSet { root: None }
    }

    /// Puts `value` into the set. A value that the set holds already
    /// changes nothing, not even the shape of the tree.
    pub fn insert(&mut self, value: T)
        requires
            total_order::<T>(),
            old(self).wf(),
        ensures
            *final(self) == old(self).after_insert(value),
            final(self).tree() == painted(inserted(old(self).tree(), value), Color::Black),
            final(self).wf(),
            final(self)@ == old(self)@.insert(value),
            old(self)@.contains(value) ==> *final(self) == *old(self),
    {
        proof {
            self.lemma_after_insert(value);
        }
        if self.root.is_none() {
            let mut node = Node::new(value);
            node.color = Color::Black;
            self.root = Some(Box::new(node));
        } else {
            Node::insert(&mut self.root, value);
            Node::set_color(&mut self.root, Color::Black);
        }
    }

    /// Takes `value` out of the set. A value that the set does not hold
    /// changes nothing, not even the shape of the tree.
    pub fn remove(&mut self, value: &T)
        requires
            total_order::<T>(),
            old(self).wf(),
        ensures
            *final(self) == old(self).after_remove(*value),
            final(self).tree() == painted(removed(old(self).tree(), *value).0, Color::Black),
            final(self).wf(),
            final(self)@ == old(self)@.remove(*value),
            !old(self)@.contains(*value) ==> *final(self) == *old(self),
    {
        proof {
            self.lemma_after_remove(*value);
        }
        Node::remove(&mut self.root, value);
        Node::set_color(&mut self.root, Color::Black);
    }

    /// Whether the set holds `value`.
    pub fn contains(&self, value: &T) -> (found: bool)
        requires
            total_order::<T>(),
            self.wf(),
        ensures
            found == self@.contains(*value),
    {
        Node::contains(&self.root, value)
    }

    /// The least value of the set; `None` where the set is empty.
    pub fn min(&self) -> (least: Option<&T>)
        requires
            self.wf(),
        ensures
            least is None <==> self@.is_empty(),
            least matches Some(m) ==> {
                &&& *m == self.in_order().first()
                &&& self@.contains(*m)
                &&& forall|e: T| self@.contains(e) ==> e == *m || lt(*m, e)
            },
    {
        match &self.root {
            Some(node) => {
                let least = node.min();
                proof {
                    lemma_increasing_ends(self.in_order());
                    assert(self@.contains(least.value));
                }
                Some(&least.value)
            },
            None => None,
        }
    }

    /// The greatest value of the set; `None` where the set is empty.
    pub fn max(&self) -> (greatest: Option<&T>)
        requires
            self.wf(),
        ensures
            greatest is None <==> self@.is_empty(),
            greatest matches Some(m) ==> {
                &&& *m == self.in_order().last()
                &&& self@.contains(*m)
                &&& forall|e: T| self@.contains(e) ==> e == *m || lt(e, *m)
            },
    {
        match &self.root {
            Some(node) => {
                let greatest = node.max();
                proof {
                    lemma_increasing_ends(self.in_order());
                    assert(self@.contains(greatest.value));
                }
                Some(&greatest.value)
            },
            None => None,
        }
    }

    /// The value at the root of the tree; `None` where the set is empty.
    pub fn root(&self) -> (top: Option<&T>)
        ensures
            top is None <==> self.tree() is None,
            top matches Some(value) ==> *value == self.tree()->0.value,
    {
        match &self.root {
            Some(node) => Some(&node.value),
            None => None,
        }
    }

    /// The height of the tree: the number of nodes on the longest path from
    /// the root down to an empty slot, or `usize::MAX` where the height is
    /// greater than that.
    pub fn height(&self) -> (height: usize)
        ensures
            height == if link_height(self.tree()) <= usize::MAX {
                link_height(self.tree())
            } else {
                usize::MAX as nat
            },
    {
        Node::height(&self.root)
    }

    /// Walks the whole tree and says whether it is a red-black search tree,
    /// as [`TreeSet::wf`] states it.
    pub fn is_valid(&self) -> (ok: bool)
        requires
            total_order::<T>(),
        ensures
            ok == self.wf(),
    {
        Node::get_color(&self.root) == Color::Black && Node::has_no_red_red(&self.root)
            && Node::is_balanced(&self.root) && Node::is_ordered_between(&self.root, None, None)
    }
}

impl<T: Ord> Default for TreeSet<T> {
    /// An empty set.
    fn default() -> (set: Self)
        ensures
            set.wf(),
            set.tree() is None,
            set@ == Set::<T>::empty(),
    {
        TreeSet::new()
    }
}

} // verus!
