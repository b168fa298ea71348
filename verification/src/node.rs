//! The nodes of the tree and what a subtree is taken to be: its values in
//! order, its colours, its black height, and the red-black rules over them.

use crate::order::{increasing, lemma_increasing_join, lemma_increasing_split, lt, total_order};
use vstd::prelude::*;

verus! {

/// The colour tag of a node.
#[derive(Clone, Copy, Debug, PartialEq, Eq, Structural)]
pub enum Color {
    Red,
    Black,
}

/// One cell of the tree. A node owns its two subtrees; there is no link
/// back to the parent: every operation reaches a node through the slot
/// that owns it and repairs the tree on its way back up.
#[derive(Debug)]
pub struct Node<T: Ord> {
    pub value: T,
    pub color: Color,
    pub left_child: Link<T>,
    pub right_child: Link<T>,
}

/// A slot that owns a subtree: the root of the set, or a child of a node.
pub type Link<T> = Option<Box<Node<T>>>;

/// The values of a subtree, read from left to right.
pub open spec fn link_seq<T: Ord>(link: Link<T>) -> Seq<T>
    decreases link,
{
    match link {
        None => Seq::empty(),
        Some(node) => link_seq(node.left_child) + seq![node.value] + link_seq(node.right_child),
    }
}

/// The values that a subtree holds.
pub open spec fn link_set<T: Ord>(link: Link<T>) -> Set<T> {
    link_seq(link).to_set()
}

/// Search-tree order: read from left to right, the values strictly increase.
pub open spec fn ordered<T: Ord>(link: Link<T>) -> bool {
    increasing(link_seq(link))
}

/// The colour of a slot; an empty slot counts as black.
pub open spec fn color_of<T: Ord>(link: Link<T>) -> Color {
    match link {
        None => Color::Black,
        Some(node) => node.color,
    }
}

/// The subtree with its root painted in `color`; an empty slot stays empty.
pub open spec fn painted<T: Ord>(link: Link<T>, color: Color) -> Link<T> {
    match link {
        None => None,
        Some(node) => Some(Box::new(Node { color, ..*node })),
    }
}

/// A subtree of one red node that holds `value`: what an insertion attaches.
pub open spec fn red_leaf<T: Ord>(value: T) -> Link<T> {
    Some(Box::new(Node { value, color: Color::Red, left_child: None, right_child: None }))
}

/// The number that a node of this colour adds to the black height.
pub open spec fn black_unit(color: Color) -> nat {
    match color {
        Color::Black => 1,
        Color::Red => 0,
    }
}

/// The number of black nodes on the leftmost path from a slot down to an
/// empty slot.
pub open spec fn black_height<T: Ord>(link: Link<T>) -> nat
    decreases link,
{
    match link {
        None => 0,
        Some(node) => black_height(node.left_child) + black_unit(node.color),
    }
}

/// Every path from a slot down to an empty slot passes the same number of
/// black nodes.
pub open spec fn balanced<T: Ord>(link: Link<T>) -> bool
    decreases link,
{
    match link {
        None => true,
        Some(node) => {
            &&& balanced(node.left_child)
            &&& balanced(node.right_child)
            &&& black_height(node.left_child) == black_height(node.right_child)
        },
    }
}

/// No red node in the subtree has a red child.
pub open spec fn no_red_red<T: Ord>(link: Link<T>) -> bool
    decreases link,
{
    match link {
        None => true,
        Some(node) => {
            &&& no_red_red(node.left_child)
            &&& no_red_red(node.right_child)
            &&& node.color == Color::Red ==> color_of(node.left_child) == Color::Black && color_of(
                node.right_child,
            ) == Color::Black
        },
    }
}

/// What the values of a node's subtree are, and what search-tree order
/// means for it, in terms of its two subtrees.
pub proof fn lemma_node_content<T: Ord>(link: Link<T>)
    requires
        link is Some,
    ensures
        link_set(link) == link_set(link->0.left_child).union(link_set(link->0.right_child)).insert(
            link->0.value,
        ),
        ordered(link) ==> {
            &&& ordered(link->0.left_child)
            &&& ordered(link->0.right_child)
            &&& forall|e: T| #[trigger] link_set(link->0.left_child).contains(e) ==> lt(e, link->0.value)
            &&& forall|e: T| #[trigger] link_set(link->0.right_child).contains(e) ==> lt(link->0.value, e)
        },
{
    let node = link->0;
    let a = link_seq(node.left_child);
    let b = link_seq(node.right_child);
    let x = node.value;
    let s = a + seq![x] + b;
    assert forall|e: T| s.contains(e) <==> (a.contains(e) || b.contains(e) || e == x) by {
        if a.contains(e) {
            let i = choose|i: int| 0 <= i < a.len() && a[i] == e;
            assert(s[i] == e);
        }
        if b.contains(e) {
            let i = choose|i: int| 0 <= i < b.len() && b[i] == e;
            assert(s[a.len() + 1 + i] == e);
        }
        if e == x {
            assert(s[a.len() as int] == e);
        }
    }
    if ordered(link) {
        lemma_increasing_split(a, x, b);
    }
}

/// The converse for order: ordered subtrees on both sides of a value that
/// separates them make an ordered subtree.
pub proof fn lemma_node_ordered<T: Ord>(link: Link<T>)
    requires
        total_order::<T>(),
        link is Some,
        ordered(link->0.left_child),
        ordered(link->0.right_child),
        forall|e: T| #[trigger] link_set(link->0.left_child).contains(e) ==> lt(e, link->0.value),
        forall|e: T| #[trigger] link_set(link->0.right_child).contains(e) ==> lt(link->0.value, e),
    ensures
        ordered(link),
{
    let node = link->0;
    let a = link_seq(node.left_child);
    let b = link_seq(node.right_child);
    let x = node.value;
    assert forall|i: int| 0 <= i < a.len() implies lt(#[trigger] a[i], x) by {
        assert(link_set(node.left_child).contains(a[i]));
    }
    assert forall|i: int| 0 <= i < b.len() implies lt(x, #[trigger] b[i]) by {
        assert(link_set(node.right_child).contains(b[i]));
    }
    lemma_increasing_join(a, x, b);
}

impl<T: Ord> Node<T> {
    /// A fresh red node without children.
    pub fn new(value: T) -> (node: Self)
        ensures
            Some(Box::new(node)) == red_leaf(value),
    {
        Node { value, color: Color::Red, left_child: None, right_child: None }
    }

    /// Hands the node a new left subtree; what it held there is dropped.
    pub fn set_left_child(&mut self, child: Link<T>)
        ensures
            *final(self) == (Node { left_child: child, ..*old(self) }),
    {
        self.left_child = child;
    }

    /// Hands the node a new right subtree; what it held there is dropped.
    pub fn set_right_child(&mut self, child: Link<T>)
        ensures
            *final(self) == (Node { right_child: child, ..*old(self) }),
    {
        self.right_child = child;
    }

    /// The colour of the node in a slot, black where the slot is empty.
    pub fn get_color(link: &Link<T>) -> (color: Color)
        ensures
            color == color_of(*link),
    {
        match link {
            Some(node) => node.color,
            None => Color::Black,
        }
    }

    /// Paints the node in a slot; an empty slot stays as it is.
    pub fn set_color(link: &mut Link<T>, color: Color)
        ensures
            *final(link) == painted(*old(link), color),
    {
        match link {
            Some(node) => {
                node.color = color;
            },
            None => {},
        }
    }
}

} // verus!
