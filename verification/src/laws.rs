//! What holds of the set over any run of operations, stated over the
//! functions that the contracts of the operations use.

use crate::inspect::link_height;
use crate::node::{
    balanced, black_height, black_unit, color_of, link_seq, no_red_red, Color, Link,
};
use crate::order::{increasing, total_order};
use crate::TreeSet;
use vstd::arithmetic::power2::{lemma_pow2_strictly_increases, lemma_pow2_unfold, pow2};
use vstd::prelude::*;

verus! {

/// One change to a set.
pub enum Operation<T> {
    Insert(T),
    Remove(T),
}

/// What one change makes of a mathematical set.
pub open spec fn reference_after<T>(set: Set<T>, operation: Operation<T>) -> Set<T> {
    match operation {
        Operation::Insert(value) => set.insert(value),
        Operation::Remove(value) => set.remove(value),
    }
}

/// What a run of changes, made from first to last, makes of a mathematical
/// set.
pub open spec fn reference_after_all<T>(set: Set<T>, operations: Seq<Operation<T>>) -> Set<T>
    decreases operations.len(),
{
    if operations.len() == 0 {
        set
    } else {
        reference_after(reference_after_all(set, operations.drop_last()), operations.last())
    }
}

impl<T: Ord> TreeSet<T> {
    /// The set after one change.
    pub open spec fn after(self, operation: Operation<T>) -> Self {
        match operation {
            Operation::Insert(value) => self.after_insert(value),
            Operation::Remove(value) => self.after_remove(value),
        }
    }

    /// The set after a run of changes, made from first to last.
    pub open spec fn after_all(self, operations: Seq<Operation<T>>) -> Self
        decreases operations.len(),
    {
        if operations.len() == 0 {
            self
        } else {
            self.after_all(operations.drop_last()).after(operations.last())
        }
    }
}

/// Whatever run of insertions and removals is made on a well-formed set,
/// the set stays well-formed: its values strictly increase from left to
/// right, its root is black, no red node has a red child, and all paths
/// pass the same number of black nodes. And it holds exactly what a
/// mathematical set holds after the same run.
pub proof fn law_operations<T: Ord>(set: TreeSet<T>, operations: Seq<Operation<T>>)
    requires
        total_order::<T>(),
        set.wf(),
    ensures
        set.after_all(operations).wf(),
        increasing(set.after_all(operations).in_order()),
        set.after_all(operations).in_order().no_duplicates(),
        set.after_all(operations)@ == reference_after_all(set@, operations),
    decreases operations.len(),
{
    if operations.len() > 0 {
        law_operations(set, operations.drop_last());
        let before = set.after_all(operations.drop_last());
        match operations.last() {
            Operation::Insert(value) => {
                before.lemma_after_insert(value);
            },
            Operation::Remove(value) => {
                before.lemma_after_remove(value);
            },
        }
    }
    set.after_all(operations).lemma_in_order();
}

/// To insert a value a second time changes nothing: the set is what it was
/// after the first insertion.
pub proof fn law_insert_twice<T: Ord>(set: TreeSet<T>, value: T)
    requires
        total_order::<T>(),
        set.wf(),
    ensures
        set.after_insert(value).after_insert(value) == set.after_insert(value),
{
    set.lemma_after_insert(value);
    set.after_insert(value).lemma_after_insert(value);
}

/// To remove a value a second time changes nothing: the set is what it was
/// after the first removal.
pub proof fn law_remove_twice<T: Ord>(set: TreeSet<T>, value: T)
    requires
        total_order::<T>(),
        set.wf(),
    ensures
        set.after_remove(value).after_remove(value) == set.after_remove(value),
{
    set.lemma_after_remove(value);
    set.after_remove(value).lemma_after_remove(value);
}

/// Whether `path` leads from a slot down to an empty slot. A path says at
/// each node where to go on: `false` for left, `true` for right.
pub open spec fn reaches_empty_slot<T: Ord>(link: Link<T>, path: Seq<bool>) -> bool
    decreases link,
{
    match link {
        None => path.len() == 0,
        Some(node) => path.len() > 0 && reaches_empty_slot(
            if path[0] {
                node.right_child
            } else {
                node.left_child
            },
            path.skip(1),
        ),
    }
}

/// The number of black nodes that `path` passes on its way down from a
/// slot.
pub open spec fn black_nodes_on<T: Ord>(link: Link<T>, path: Seq<bool>) -> nat
    decreases link,
{
    match link {
        None => 0,
        Some(node) => black_unit(node.color) + if path.len() > 0 {
            black_nodes_on(
                if path[0] {
                    node.right_child
                } else {
                    node.left_child
                },
                path.skip(1),
            )
        } else {
            0
        },
    }
}

/// In a balanced subtree every path from the root down to an empty slot
/// passes the same number of black nodes: the black height.
pub proof fn law_black_nodes_on_every_path<T: Ord>(link: Link<T>, path: Seq<bool>)
    requires
        balanced(link),
        reaches_empty_slot(link, path),
    ensures
        black_nodes_on(link, path) == black_height(link),
    decreases link,
{
    match link {
        None => {},
        Some(node) => {
            if path[0] {
                law_black_nodes_on_every_path(node.right_child, path.skip(1));
            } else {
                law_black_nodes_on_every_path(node.left_child, path.skip(1));
            }
        },
    }
}

/// A red-black subtree is at most twice as high as its black height, plus
/// one where its root is red; and a subtree of black height `b` holds at
/// least `2^b - 1` values.
pub proof fn lemma_height_and_size<T: Ord>(link: Link<T>)
    requires
        balanced(link),
        no_red_red(link),
    ensures
        link_height(link) <= 2 * black_height(link) + if color_of(link) == Color::Red {
            1nat
        } else {
            0nat
        },
        pow2(black_height(link)) <= link_seq(link).len() + 1,
    decreases link,
{
    match link {
        None => {
            assert(pow2(0) == 1) by {
                vstd::arithmetic::power2::lemma2_to64();
            }
        },
        Some(node) => {
            lemma_height_and_size(node.left_child);
            lemma_height_and_size(node.right_child);
            let b = black_height(node.left_child);
            assert(link_seq(link).len() == link_seq(node.left_child).len() + 1 + link_seq(
                node.right_child,
            ).len());
            if node.color == Color::Black {
                lemma_pow2_unfold(b + 1);
            }
        },
    }
}

/// The height of a well-formed set grows with the logarithm of the number
/// of its values: a tree of height `h` holds at least `2^(h/2) - 1` values.
pub proof fn law_height_is_logarithmic<T: Ord>(set: TreeSet<T>)
    requires
        set.wf(),
    ensures
        pow2(link_height(set.tree()) / 2) <= set.in_order().len() + 1,
{
    let tree = set.tree();
    lemma_height_and_size(tree);
    let half = link_height(tree) / 2;
    if half < black_height(tree) {
        lemma_pow2_strictly_increases(half, black_height(tree));
    }
}

} // verus!
