//! Removal: the descent to the value, the splice that takes a node out, and
//! the recolouring and rotation that make up for a lost black node on the
//! way back up.

use crate::node::{
    balanced, black_height, black_unit, color_of, lemma_node_content, lemma_node_ordered,
    link_seq, link_set, no_red_red, ordered, painted, Color, Link, Node,
};
use crate::order::{lemma_increasing_without, total_order};
use crate::rotate::{rotated_left, rotated_right};
use std::cmp::Ordering;
use vstd::prelude::*;
use vstd::std_specs::cmp::OrdSpec;

verus! {

/// The number of black nodes that a subtree has lost on every path.
pub open spec fn lost(shrunk: bool) -> nat {
    if shrunk {
        1
    } else {
        0
    }
}

/// What a step of a removal owes to the red-black rules. `color` is the
/// colour of the slot and `height` its black height before the removal;
/// `after` is the subtree that the step leaves in the slot, and whether its
/// paths came out one black node short.
///
/// The subtree is balanced and without a red node that has a red child.
/// Its black height is `height`, or one less where it came out short. A
/// slot that was black is black, and under a slot that was red nothing is
/// lost.
pub open spec fn keeps_rules<T: Ord>(color: Color, height: nat, after: (Link<T>, bool)) -> bool {
    &&& balanced(after.0)
    &&& no_red_red(after.0)
    &&& black_height(after.0) + lost(after.1) == height
    &&& color == Color::Black ==> color_of(after.0) == Color::Black
    &&& color == Color::Red ==> !after.1
}

/// The slot after the node in it, which has at most one child, was taken
/// out, and whether the paths through the slot lost a black node by it.
///
/// The child, if there is one, moves up. Taking out a red node costs
/// nothing. For a black node, a red child that moves up turns black and
/// makes up for it; otherwise the slot is one black node short.
pub open spec fn spliced<T: Ord>(link: Link<T>) -> (Link<T>, bool) {
    match link {
        None => (None, false),
        Some(node) => {
            let child = if node.left_child is Some {
                node.left_child
            } else {
                node.right_child
            };
            if node.color == Color::Red {
                (child, false)
            } else if color_of(child) == Color::Red {
                (painted(child, Color::Black), false)
            } else {
                (child, true)
            }
        },
    }
}

/// Splicing out a node with at most one child takes its value out of the
/// values in order and keeps the red-black rules below the slot; the black
/// height of the slot drops by one exactly where the result says so.
pub proof fn lemma_spliced<T: Ord>(link: Link<T>)
    requires
        link is Some,
        link->0.left_child is None || link->0.right_child is None,
        no_red_red(link),
        balanced(link),
    ensures
        link_seq(spliced(link).0) == link_seq(link->0.left_child) + link_seq(link->0.right_child),
        keeps_rules(color_of(link), black_height(link), spliced(link)),
        color_of(spliced(link).0) == Color::Black,
{
    reveal_with_fuel(link_seq, 2);
    reveal_with_fuel(no_red_red, 2);
    reveal_with_fuel(balanced, 2);
    reveal_with_fuel(black_height, 2);
    assert(link_seq(spliced(link).0) =~= link_seq(link->0.left_child) + link_seq(
        link->0.right_child,
    ));
}

/// The state of a node after a removal that left its left subtree one black
/// node short: both subtrees obey the red-black rules on their own, the
/// paths through the left one pass one black node less than those through
/// the right one, and a red node has a black right child.
pub open spec fn short_on_left<T: Ord>(link: Link<T>) -> bool {
    match link {
        None => false,
        Some(node) => {
            &&& balanced(node.left_child)
            &&& balanced(node.right_child)
            &&& no_red_red(node.left_child)
            &&& no_red_red(node.right_child)
            &&& black_height(node.left_child) + 1 == black_height(node.right_child)
            &&& node.color == Color::Red ==> color_of(node.right_child) == Color::Black
        },
    }
}

/// The black height that a node whose left subtree is one black node short
/// had before the removal; the right subtree still shows it.
pub open spec fn height_before_left<T: Ord>(link: Link<T>) -> nat {
    match link {
        None => 0,
        Some(node) => black_height(node.right_child) + black_unit(node.color),
    }
}

/// The repair of a node whose left subtree is one black node short and
/// whose right child, the sibling, is black; and whether the node as a
/// whole is one short after it.
///
/// - Both children of the sibling are black: the sibling turns red. A red
///   node then turns black and the loss is made up; a black node stays
///   black, and its whole subtree is now one short.
/// - Only the near child of the sibling (its left one) is red: the sibling
///   is rotated to the right and swaps colours with that child, which makes
///   the far child red.
/// - The far child of the sibling is red: the sibling takes the colour of
///   the node, the node and the far child turn black, and the node is
///   rotated to the left. The loss is made up.
pub open spec fn refilled_left_black_sibling<T: Ord>(link: Link<T>) -> (Link<T>, bool) {
    match link {
        None => (None, false),
        Some(node) => {
            let near = match node.right_child {
                Some(sibling) => color_of(sibling.left_child),
                None => Color::Black,
            };
            let far = match node.right_child {
                Some(sibling) => color_of(sibling.right_child),
                None => Color::Black,
            };
            if near == Color::Black && far == Color::Black {
                (
                    Some(
                        Box::new(
                            Node {
                                value: node.value,
                                color: Color::Black,
                                left_child: node.left_child,
                                right_child: painted(node.right_child, Color::Red),
                            },
                        ),
                    ),
                    node.color == Color::Black,
                )
            } else {
                let straight = if far == Color::Black {
                    painted(rotated_right(painted(node.right_child, Color::Red)), Color::Black)
                } else {
                    node.right_child
                };
                let sibling = match straight {
                    Some(s) => Some(
                        Box::new(
                            Node {
                                value: s.value,
                                color: node.color,
                                left_child: s.left_child,
                                right_child: painted(s.right_child, Color::Black),
                            },
                        ),
                    ),
                    None => None,
                };
                (
                    rotated_left(
                        Some(
                            Box::new(
                                Node {
                                    value: node.value,
                                    color: Color::Black,
                                    left_child: node.left_child,
                                    right_child: sibling,
                                },
                            ),
                        ),
                    ),
                    false,
                )
            }
        },
    }
}

/// What [`lemma_refilled_left_black_sibling`] says, where both children of
/// the sibling are black.
proof fn lemma_refilled_left_recoloured<T: Ord>(link: Link<T>)
    requires
        short_on_left(link),
        color_of(link->0.right_child) == Color::Black,
        color_of(link->0.right_child->0.left_child) == Color::Black,
        color_of(link->0.right_child->0.right_child) == Color::Black,
    ensures
        link_seq(refilled_left_black_sibling(link).0) == link_seq(link),
        keeps_rules(color_of(link), height_before_left(link), refilled_left_black_sibling(link)),
{
    reveal_with_fuel(link_seq, 3);
    reveal_with_fuel(no_red_red, 3);
    reveal_with_fuel(balanced, 3);
    reveal_with_fuel(black_height, 3);
}

/// What [`lemma_refilled_left_black_sibling`] says, where the far child of
/// the sibling is red.
proof fn lemma_refilled_left_far_red<T: Ord>(link: Link<T>)
    requires
        short_on_left(link),
        color_of(link->0.right_child) == Color::Black,
        color_of(link->0.right_child->0.right_child) == Color::Red,
    ensures
        link_seq(refilled_left_black_sibling(link).0) == link_seq(link),
        keeps_rules(color_of(link), height_before_left(link), refilled_left_black_sibling(link)),
{
    reveal_with_fuel(link_seq, 3);
    reveal_with_fuel(no_red_red, 3);
    reveal_with_fuel(balanced, 3);
    reveal_with_fuel(black_height, 3);
}

/// What [`lemma_refilled_left_black_sibling`] says, where only the near
/// child of the sibling is red.
proof fn lemma_refilled_left_near_red<T: Ord>(link: Link<T>)
    requires
        short_on_left(link),
        color_of(link->0.right_child) == Color::Black,
        color_of(link->0.right_child->0.left_child) == Color::Red,
        color_of(link->0.right_child->0.right_child) == Color::Black,
    ensures
        link_seq(refilled_left_black_sibling(link).0) == link_seq(link),
        keeps_rules(color_of(link), height_before_left(link), refilled_left_black_sibling(link)),
{
    reveal_with_fuel(link_seq, 3);
    reveal_with_fuel(no_red_red, 3);
    reveal_with_fuel(balanced, 3);
    reveal_with_fuel(black_height, 3);
}

/// The repair by [`refilled_left_black_sibling`] keeps the values in their
/// order and restores the red-black rules below the slot. The black height
/// of the slot is what it was before the removal, or one less where the
/// result says so, which happens under a black node only.
pub proof fn lemma_refilled_left_black_sibling<T: Ord>(link: Link<T>)
    requires
        short_on_left(link),
        color_of(link->0.right_child) == Color::Black,
    ensures
        link_seq(refilled_left_black_sibling(link).0) == link_seq(link),
        keeps_rules(color_of(link), height_before_left(link), refilled_left_black_sibling(link)),
{
    let sibling = link->0.right_child;
    assert(sibling is Some) by {
        reveal_with_fuel(black_height, 1);
    }
    if color_of(sibling->0.right_child) == Color::Red {
        lemma_refilled_left_far_red(link);
    } else if color_of(sibling->0.left_child) == Color::Red {
        lemma_refilled_left_near_red(link);
    } else {
        lemma_refilled_left_recoloured(link);
    }
}

/// The repair of a node whose left subtree is one black node short; and
/// whether the node as a whole is one short after it.
///
/// A red sibling is first rotated into the place of the node: the node
/// turns red, the sibling turns black, and the node is rotated to the
/// left. The node, one level further down now, has a black sibling, and
/// [`refilled_left_black_sibling`] finishes the repair there.
pub open spec fn refilled_left<T: Ord>(link: Link<T>) -> (Link<T>, bool) {
    match link {
        None => (None, false),
        Some(node) => if color_of(node.right_child) == Color::Red {
            let turned = rotated_left(
                Some(
                    Box::new(
                        Node {
                            value: node.value,
                            color: Color::Red,
                            left_child: node.left_child,
                            right_child: painted(node.right_child, Color::Black),
                        },
                    ),
                ),
            );
            match turned {
                Some(top) => (
                    Some(
                        Box::new(
                            Node {
                                value: top.value,
                                color: top.color,
                                left_child: refilled_left_black_sibling(top.left_child).0,
                                right_child: top.right_child,
                            },
                        ),
                    ),
                    false,
                ),
                None => (None, false),
            }
        } else {
            refilled_left_black_sibling(link)
        },
    }
}

/// The repair by [`refilled_left`] keeps the values in their order and
/// restores the red-black rules below the slot. The black height of the
/// slot is what it was before the removal, or one less where the result
/// says so, which happens under a black node only.
pub proof fn lemma_refilled_left<T: Ord>(link: Link<T>)
    requires
        short_on_left(link),
    ensures
        link_seq(refilled_left(link).0) == link_seq(link),
        keeps_rules(color_of(link), height_before_left(link), refilled_left(link)),
{
    let node = link->0;
    if color_of(node.right_child) == Color::Red {
        reveal_with_fuel(link_seq, 3);
        reveal_with_fuel(no_red_red, 3);
        reveal_with_fuel(balanced, 3);
        reveal_with_fuel(black_height, 3);
        let turned = rotated_left(
            Some(
                Box::new(
                    Node {
                        value: node.value,
                        color: Color::Red,
                        left_child: node.left_child,
                        right_child: painted(node.right_child, Color::Black),
                    },
                ),
            ),
        );
        assert(link_seq(turned) =~= link_seq(link));
        lemma_refilled_left_black_sibling(turned->0.left_child);
    } else {
        lemma_refilled_left_black_sibling(link);
    }
}

/// The mirror image of [`short_on_left`].
pub open spec fn short_on_right<T: Ord>(link: Link<T>) -> bool {
    match link {
        None => false,
        Some(node) => {
            &&& balanced(node.right_child)
            &&& balanced(node.left_child)
            &&& no_red_red(node.right_child)
            &&& no_red_red(node.left_child)
            &&& black_height(node.right_child) + 1 == black_height(node.left_child)
            &&& node.color == Color::Red ==> color_of(node.left_child) == Color::Black
        },
    }
}

/// The mirror image of [`height_before_left`].
pub open spec fn height_before_right<T: Ord>(link: Link<T>) -> nat {
    match link {
        None => 0,
        Some(node) => black_height(node.left_child) + black_unit(node.color),
    }
}

/// The mirror image of [`refilled_left_black_sibling`].
pub open spec fn refilled_right_black_sibling<T: Ord>(link: Link<T>) -> (Link<T>, bool) {
    match link {
        None => (None, false),
        Some(node) => {
            let near = match node.left_child {
                Some(sibling) => color_of(sibling.right_child),
                None => Color::Black,
            };
            let far = match node.left_child {
                Some(sibling) => color_of(sibling.left_child),
                None => Color::Black,
            };
            if near == Color::Black && far == Color::Black {
                (
                    Some(
                        Box::new(
                            Node {
                                value: node.value,
                                color: Color::Black,
                                left_child: painted(node.left_child, Color::Red),
                                right_child: node.right_child,
                            },
                        ),
                    ),
                    node.color == Color::Black,
                )
            } else {
                let straight = if far == Color::Black {
                    painted(rotated_left(painted(node.left_child, Color::Red)), Color::Black)
                } else {
                    node.left_child
                };
                let sibling = match straight {
                    Some(s) => Some(
                        Box::new(
                            Node {
                                value: s.value,
                                color: node.color,
                                left_child: painted(s.left_child, Color::Black),
                                right_child: s.right_child,
                            },
                        ),
                    ),
                    None => None,
                };
                (
                    rotated_right(
                        Some(
                            Box::new(
                                Node {
                                    value: node.value,
                                    color: Color::Black,
                                    left_child: sibling,
                                    right_child: node.right_child,
                                },
                            ),
                        ),
                    ),
                    false,
                )
            }
        },
    }
}

/// What [`lemma_refilled_left_recoloured`] says, for the other side.
proof fn lemma_refilled_right_recoloured<T: Ord>(link: Link<T>)
    requires
        short_on_right(link),
        color_of(link->0.left_child) == Color::Black,
        color_of(link->0.left_child->0.right_child) == Color::Black,
        color_of(link->0.left_child->0.left_child) == Color::Black,
    ensures
        link_seq(refilled_right_black_sibling(link).0) == link_seq(link),
        keeps_rules(color_of(link), height_before_right(link), refilled_right_black_sibling(link)),
{
    reveal_with_fuel(link_seq, 3);
    reveal_with_fuel(no_red_red, 3);
    reveal_with_fuel(balanced, 3);
    reveal_with_fuel(black_height, 3);
}

/// What [`lemma_refilled_left_far_red`] says, for the other side.
proof fn lemma_refilled_right_far_red<T: Ord>(link: Link<T>)
    requires
        short_on_right(link),
        color_of(link->0.left_child) == Color::Black,
        color_of(link->0.left_child->0.left_child) == Color::Red,
    ensures
        link_seq(refilled_right_black_sibling(link).0) == link_seq(link),
        keeps_rules(color_of(link), height_before_right(link), refilled_right_black_sibling(link)),
{
    reveal_with_fuel(link_seq, 3);
    reveal_with_fuel(no_red_red, 3);
    reveal_with_fuel(balanced, 3);
    reveal_with_fuel(black_height, 3);
}

/// What [`lemma_refilled_left_near_red`] says, for the other side.
proof fn lemma_refilled_right_near_red<T: Ord>(link: Link<T>)
    requires
        short_on_right(link),
        color_of(link->0.left_child) == Color::Black,
        color_of(link->0.left_child->0.right_child) == Color::Red,
        color_of(link->0.left_child->0.left_child) == Color::Black,
    ensures
        link_seq(refilled_right_black_sibling(link).0) == link_seq(link),
        keeps_rules(color_of(link), height_before_right(link), refilled_right_black_sibling(link)),
{
    reveal_with_fuel(link_seq, 3);
    reveal_with_fuel(no_red_red, 3);
    reveal_with_fuel(balanced, 3);
    reveal_with_fuel(black_height, 3);
}

/// What [`lemma_refilled_left_black_sibling`] says, for the other side.
pub proof fn lemma_refilled_right_black_sibling<T: Ord>(link: Link<T>)
    requires
        short_on_right(link),
        color_of(link->0.left_child) == Color::Black,
    ensures
        link_seq(refilled_right_black_sibling(link).0) == link_seq(link),
        keeps_rules(color_of(link), height_before_right(link), refilled_right_black_sibling(link)),
{
    let sibling = link->0.left_child;
    assert(sibling is Some) by {
        reveal_with_fuel(black_height, 1);
    }
    if color_of(sibling->0.left_child) == Color::Red {
        lemma_refilled_right_far_red(link);
    } else if color_of(sibling->0.right_child) == Color::Red {
        lemma_refilled_right_near_red(link);
    } else {
        lemma_refilled_right_recoloured(link);
    }
}

/// The mirror image of [`refilled_left`].
pub open spec fn refilled_right<T: Ord>(link: Link<T>) -> (Link<T>, bool) {
    match link {
        None => (None, false),
        Some(node) => if color_of(node.left_child) == Color::Red {
            let turned = rotated_right(
                Some(
                    Box::new(
                        Node {
                            value: node.value,
                            color: Color::Red,
                            left_child: painted(node.left_child, Color::Black),
                            right_child: node.right_child,
                        },
                    ),
                ),
            );
            match turned {
                Some(top) => (
                    Some(
                        Box::new(
                            Node {
                                value: top.value,
                                color: top.color,
                                left_child: top.left_child,
                                right_child: refilled_right_black_sibling(top.right_child).0,
                            },
                        ),
                    ),
                    false,
                ),
                None => (None, false),
            }
        } else {
            refilled_right_black_sibling(link)
        },
    }
}

/// What [`lemma_refilled_left`] says, for the other side.
pub proof fn lemma_refilled_right<T: Ord>(link: Link<T>)
    requires
        short_on_right(link),
    ensures
        link_seq(refilled_right(link).0) == link_seq(link),
        keeps_rules(color_of(link), height_before_right(link), refilled_right(link)),
{
    let node = link->0;
    if color_of(node.left_child) == Color::Red {
        reveal_with_fuel(link_seq, 3);
        reveal_with_fuel(no_red_red, 3);
        reveal_with_fuel(balanced, 3);
        reveal_with_fuel(black_height, 3);
        let turned = rotated_right(
            Some(
                Box::new(
                    Node {
                        value: node.value,
                        color: Color::Red,
                        left_child: painted(node.left_child, Color::Black),
                        right_child: node.right_child,
                    },
                ),
            ),
        );
        assert(link_seq(turned) =~= link_seq(link));
        lemma_refilled_right_black_sibling(turned->0.right_child);
    } else {
        lemma_refilled_right_black_sibling(link);
    }
}

/// The subtree after its greatest value, the last one in order, was taken
/// out, and whether every path through it lost a black node by that.
pub open spec fn max_removed<T: Ord>(link: Link<T>) -> (Link<T>, bool)
    decreases link,
{
    match link {
        None => (None, false),
        Some(node) => if node.right_child is None {
            spliced(link)
        } else {
            let below = max_removed(node.right_child);
            let next = Some(
                Box::new(
                    Node {
                        value: node.value,
                        color: node.color,
                        left_child: node.left_child,
                        right_child: below.0,
                    },
                ),
            );
            if below.1 {
                refilled_right(next)
            } else {
                (next, false)
            }
        },
    }
}

/// The subtree after the value at its root was taken out, and whether
/// every path through it lost a black node by that.
///
/// A root with two children stays where it is and takes over the greatest
/// value of its left subtree, which is taken out there. A root with at
/// most one child is spliced out.
pub open spec fn root_removed<T: Ord>(link: Link<T>) -> (Link<T>, bool) {
    match link {
        None => (None, false),
        Some(node) => if node.left_child is Some && node.right_child is Some {
            let below = max_removed(node.left_child);
            let next = Some(
                Box::new(
                    Node {
                        value: link_seq(node.left_child).last(),
                        color: node.color,
                        left_child: below.0,
                        right_child: node.right_child,
                    },
                ),
            );
            if below.1 {
                refilled_left(next)
            } else {
                (next, false)
            }
        } else {
            spliced(link)
        },
    }
}

/// The subtree after the removal of `value`, and whether every path
/// through it lost a black node by that.
///
/// The search for `value` goes left where it is smaller than the value of
/// a node and right where it is greater. Where it ends at an empty slot
/// nothing changes. Where it finds the value, the root of that subtree is
/// removed, and each node above it whose subtree came back one black node
/// short is repaired.
pub open spec fn removed<T: Ord>(link: Link<T>, value: T) -> (Link<T>, bool)
    decreases link,
{
    match link {
        None => (None, false),
        Some(node) => match value.cmp_spec(&node.value) {
            Ordering::Less => {
                let below = removed(node.left_child, value);
                let next = Some(
                    Box::new(
                        Node {
                            value: node.value,
                            color: node.color,
                            left_child: below.0,
                            right_child: node.right_child,
                        },
                    ),
                );
                if below.1 {
                    refilled_left(next)
                } else {
                    (next, false)
                }
            },
            Ordering::Equal => root_removed(link),
            Ordering::Greater => {
                let below = removed(node.right_child, value);
                let next = Some(
                    Box::new(
                        Node {
                            value: node.value,
                            color: node.color,
                            left_child: node.left_child,
                            right_child: below.0,
                        },
                    ),
                );
                if below.1 {
                    refilled_right(next)
                } else {
                    (next, false)
                }
            },
        },
    }
}

/// Taking out the greatest value removes the last value in order and keeps
/// the red-black rules below the slot; the black height of the slot drops
/// by one exactly where the result says so.
pub proof fn lemma_max_removed<T: Ord>(link: Link<T>)
    requires
        link is Some,
        no_red_red(link),
        balanced(link),
    ensures
        link_seq(link) == link_seq(max_removed(link).0).push(link_seq(link).last()),
        keeps_rules(color_of(link), black_height(link), max_removed(link)),
    decreases link,
{
    let node = link->0;
    if node.right_child is None {
        lemma_spliced(link);
    } else {
        lemma_max_removed(node.right_child);
        let below = max_removed(node.right_child);
        let next = Some(
            Box::new(
                Node {
                    value: node.value,
                    color: node.color,
                    left_child: node.left_child,
                    right_child: below.0,
                },
            ),
        );
        if below.1 {
            lemma_refilled_right(next);
        }
    }
}

/// Taking out the root removes its value from the values in order and
/// keeps the red-black rules below the slot; the black height of the slot
/// drops by one exactly where the result says so.
pub proof fn lemma_root_removed<T: Ord>(link: Link<T>)
    requires
        link is Some,
        no_red_red(link),
        balanced(link),
    ensures
        link_seq(root_removed(link).0) == link_seq(link->0.left_child) + link_seq(
            link->0.right_child,
        ),
        keeps_rules(color_of(link), black_height(link), root_removed(link)),
{
    let node = link->0;
    if node.left_child is Some && node.right_child is Some {
        lemma_max_removed(node.left_child);
        let below = max_removed(node.left_child);
        let next = Some(
            Box::new(
                Node {
                    value: link_seq(node.left_child).last(),
                    color: node.color,
                    left_child: below.0,
                    right_child: node.right_child,
                },
            ),
        );
        if below.1 {
            lemma_refilled_left(next);
        }
    } else {
        lemma_spliced(link);
    }
}

/// What a removal does to a subtree that obeys the rules of a red-black
/// search tree.
///
/// The subtree holds what it held before, in order, but for `value`. A
/// subtree that did not hold `value` stays as it is. The red-black rules
/// hold below the slot, and the black height of the slot drops by one
/// exactly where the result says so. A black root stays black, and under a
/// red root nothing is lost.
pub proof fn lemma_removed<T: Ord>(link: Link<T>, value: T)
    requires
        total_order::<T>(),
        ordered(link),
        no_red_red(link),
        balanced(link),
    ensures
        link_set(removed(link, value).0) == link_set(link).remove(value),
        ordered(removed(link, value).0),
        !link_set(link).contains(value) ==> removed(link, value) == (link, false),
        keeps_rules(color_of(link), black_height(link), removed(link, value)),
    decreases link,
{
    match link {
        None => {},
        Some(node) => {
            lemma_node_content(link);
            match value.cmp_spec(&node.value) {
                Ordering::Less => {
                    lemma_removed(node.left_child, value);
                    let below = removed(node.left_child, value);
                    let next = Some(
                        Box::new(
                            Node {
                                value: node.value,
                                color: node.color,
                                left_child: below.0,
                                right_child: node.right_child,
                            },
                        ),
                    );
                    lemma_node_content(next);
                    lemma_node_ordered(next);
                    if below.1 {
                        lemma_refilled_left(next);
                    }
                },
                Ordering::Equal => {
                    lemma_increasing_without(
                        link_seq(node.left_child),
                        node.value,
                        link_seq(node.right_child),
                    );
                    lemma_root_removed(link);
                },
                Ordering::Greater => {
                    lemma_removed(node.right_child, value);
                    let below = removed(node.right_child, value);
                    let next = Some(
                        Box::new(
                            Node {
                                value: node.value,
                                color: node.color,
                                left_child: node.left_child,
                                right_child: below.0,
                            },
                        ),
                    );
                    lemma_node_content(next);
                    lemma_node_ordered(next);
                    if below.1 {
                        lemma_refilled_right(next);
                    }
                },
            }
        },
    }
}

impl<T: Ord> Node<T> {
    /// Restores the black height where the left subtree of a node is one
    /// black node short and the right child, the sibling, is black, as
    /// [`refilled_left_black_sibling`] says. Returns whether the node as a
    /// whole is one short now.
    pub fn balance_after_remove_left_black_sibling(link: &mut Link<T>) -> (shrunk: bool)
        requires
            short_on_left(*old(link)),
            color_of(old(link)->0.right_child) == Color::Black,
        ensures
            (*final(link), shrunk) == refilled_left_black_sibling(*old(link)),
            link_seq(*final(link)) == link_seq(*old(link)),
            keeps_rules(
                color_of(*old(link)),
                height_before_left(*old(link)),
                (*final(link), shrunk),
            ),
    {
        let mut turn = false;
        let mut shrunk = false;
        match link {
            None => {},
            Some(node) => {
                let (near, far) = match &node.right_child {
                    Some(sibling) => (
                        Node::get_color(&sibling.left_child),
                        Node::get_color(&sibling.right_child),
                    ),
                    None => (Color::Black, Color::Black),
                };
                if near == Color::Black && far == Color::Black {
                    Node::set_color(&mut node.right_child, Color::Red);
                    match node.color {
                        Color::Red => {
                            node.color = Color::Black;
                        },
                        Color::Black => {
                            shrunk = true;
                        },
                    }
                } else {
                    if far == Color::Black {
                        Node::set_color(&mut node.right_child, Color::Red);
                        Node::rotate_right(&mut node.right_child);
                        Node::set_color(&mut node.right_child, Color::Black);
                    }
                    let color = node.color;
                    Node::set_color(&mut node.right_child, color);
                    node.color = Color::Black;
                    match &mut node.right_child {
                        Some(sibling) => {
                            Node::set_color(&mut sibling.right_child, Color::Black);
                        },
                        None => {},
                    }
                    turn = true;
                }
            },
        }
        if turn {
            Node::rotate_left(link);
        }
        proof {
            lemma_refilled_left_black_sibling(*old(link));
        }
        shrunk
    }

    /// Restores the black height where the left subtree of a node is one
    /// black node short, as [`refilled_left`] says. Returns whether the
    /// node as a whole is one short now.
    pub fn balance_after_remove_left(link: &mut Link<T>) -> (shrunk: bool)
        requires
            short_on_left(*old(link)),
        ensures
            (*final(link), shrunk) == refilled_left(*old(link)),
            link_seq(*final(link)) == link_seq(*old(link)),
            keeps_rules(
                color_of(*old(link)),
                height_before_left(*old(link)),
                (*final(link), shrunk),
            ),
    {
        proof {
            lemma_refilled_left(*old(link));
        }
        let sibling = match link {
            Some(node) => Node::get_color(&node.right_child),
            None => Color::Black,
        };
        match sibling {
            Color::Black => Node::balance_after_remove_left_black_sibling(link),
            Color::Red => {
                match link {
                    Some(node) => {
                        node.color = Color::Red;
                        Node::set_color(&mut node.right_child, Color::Black);
                    },
                    None => {},
                }
                Node::rotate_left(link);
                proof {
                    reveal_with_fuel(no_red_red, 3);
                    reveal_with_fuel(balanced, 3);
                    reveal_with_fuel(black_height, 3);
                }
                match link {
                    Some(top) => {
                        Node::balance_after_remove_left_black_sibling(&mut top.left_child);
                    },
                    None => {},
                }
                false
            },
        }
    }

    /// The mirror image of [`Node::balance_after_remove_left_black_sibling`].
    pub fn balance_after_remove_right_black_sibling(link: &mut Link<T>) -> (shrunk: bool)
        requires
            short_on_right(*old(link)),
            color_of(old(link)->0.left_child) == Color::Black,
        ensures
            (*final(link), shrunk) == refilled_right_black_sibling(*old(link)),
            link_seq(*final(link)) == link_seq(*old(link)),
            keeps_rules(
                color_of(*old(link)),
                height_before_right(*old(link)),
                (*final(link), shrunk),
            ),
    {
        let mut turn = false;
        let mut shrunk = false;
        match link {
            None => {},
            Some(node) => {
                let (near, far) = match &node.left_child {
                    Some(sibling) => (
                        Node::get_color(&sibling.right_child),
                        Node::get_color(&sibling.left_child),
                    ),
                    None => (Color::Black, Color::Black),
                };
                if near == Color::Black && far == Color::Black {
                    Node::set_color(&mut node.left_child, Color::Red);
                    match node.color {
                        Color::Red => {
                            node.color = Color::Black;
                        },
                        Color::Black => {
                            shrunk = true;
                        },
                    }
                } else {
                    if far == Color::Black {
                        Node::set_color(&mut node.left_child, Color::Red);
                        Node::rotate_left(&mut node.left_child);
                        Node::set_color(&mut node.left_child, Color::Black);
                    }
                    let color = node.color;
                    Node::set_color(&mut node.left_child, color);
                    node.color = Color::Black;
                    match &mut node.left_child {
                        Some(sibling) => {
                            Node::set_color(&mut sibling.left_child, Color::Black);
                        },
                        None => {},
                    }
                    turn = true;
                }
            },
        }
        if turn {
            Node::rotate_right(link);
        }
        proof {
            lemma_refilled_right_black_sibling(*old(link));
        }
        shrunk
    }

    /// The mirror image of [`Node::balance_after_remove_left`].
    pub fn balance_after_remove_right(link: &mut Link<T>) -> (shrunk: bool)
        requires
            short_on_right(*old(link)),
        ensures
            (*final(link), shrunk) == refilled_right(*old(link)),
            link_seq(*final(link)) == link_seq(*old(link)),
            keeps_rules(
                color_of(*old(link)),
                height_before_right(*old(link)),
                (*final(link), shrunk),
            ),
    {
        proof {
            lemma_refilled_right(*old(link));
        }
        let sibling = match link {
            Some(node) => Node::get_color(&node.left_child),
            None => Color::Black,
        };
        match sibling {
            Color::Black => Node::balance_after_remove_right_black_sibling(link),
            Color::Red => {
                match link {
                    Some(node) => {
                        node.color = Color::Red;
                        Node::set_color(&mut node.left_child, Color::Black);
                    },
                    None => {},
                }
                Node::rotate_right(link);
                proof {
                    reveal_with_fuel(no_red_red, 3);
                    reveal_with_fuel(balanced, 3);
                    reveal_with_fuel(black_height, 3);
                }
                match link {
                    Some(top) => {
                        Node::balance_after_remove_right_black_sibling(&mut top.right_child);
                    },
                    None => {},
                }
                false
            },
        }
    }

    /// Takes the node out of a slot where it has at most one child, as
    /// [`spliced`] says. Returns the value of the node, and whether the
    /// paths through the slot lost a black node.
    pub fn splice_out(link: &mut Link<T>) -> (out: (T, bool))
        requires
            *old(link) is Some,
            old(link)->0.left_child is None || old(link)->0.right_child is None,
            no_red_red(*old(link)),
            balanced(*old(link)),
        ensures
            out.0 == old(link)->0.value,
            (*final(link), out.1) == spliced(*old(link)),
            link_seq(*final(link)) == link_seq(old(link)->0.left_child) + link_seq(
                old(link)->0.right_child,
            ),
            keeps_rules(color_of(*old(link)), black_height(*old(link)), (*final(link), out.1)),
            color_of(*final(link)) == Color::Black,
    {
        proof {
            lemma_spliced(*link);
        }
        let node = link.take().unwrap();
        let Node { value, color, left_child, right_child } = *node;
        if left_child.is_some() {
            *link = left_child;
        } else {
            *link = right_child;
        }
        match color {
            Color::Red => (value, false),
            Color::Black => match Node::get_color(link) {
                Color::Red => {
                    Node::set_color(link, Color::Black);
                    (value, false)
                },
                Color::Black => (value, true),
            },
        }
    }

    /// Takes the greatest value out of a non-empty subtree: the node at the
    /// end of the path that always goes right. Returns the value, and
    /// whether the subtree lost a black node on every path. The subtree
    /// that results is [`max_removed`].
    pub fn remove_max(link: &mut Link<T>) -> (out: (T, bool))
        requires
            *old(link) is Some,
            no_red_red(*old(link)),
            balanced(*old(link)),
        ensures
            out.0 == link_seq(*old(link)).last(),
            (*final(link), out.1) == max_removed(*old(link)),
            link_seq(*old(link)) == link_seq(*final(link)).push(out.0),
            keeps_rules(color_of(*old(link)), black_height(*old(link)), (*final(link), out.1)),
        decreases *old(link),
    {
        proof {
            lemma_max_removed(*link);
            reveal_with_fuel(link_seq, 2);
        }
        let last = match link {
            Some(node) => node.right_child.is_none(),
            None => true,
        };
        if last {
            Node::splice_out(link)
        } else {
            let mut node = link.take().unwrap();
            let (value, short) = Node::remove_max(&mut node.right_child);
            *link = Some(node);
            if short {
                let shrunk = Node::balance_after_remove_right(link);
                (value, shrunk)
            } else {
                (value, false)
            }
        }
    }

    /// Takes the node in a slot out of the tree, and says whether the paths
    /// through the slot lost a black node. The subtree that results is
    /// [`root_removed`].
    ///
    /// A node with two children is not unlinked itself. The greatest value
    /// of its left subtree, the one just before its own in order, is taken
    /// out of that subtree and written over the value of the node. A node
    /// with at most one child is spliced out.
    pub fn remove_self(link: &mut Link<T>) -> (shrunk: bool)
        requires
            *old(link) is Some,
            no_red_red(*old(link)),
            balanced(*old(link)),
        ensures
            (*final(link), shrunk) == root_removed(*old(link)),
            link_seq(*final(link)) == link_seq(old(link)->0.left_child) + link_seq(
                old(link)->0.right_child,
            ),
            keeps_rules(color_of(*old(link)), black_height(*old(link)), (*final(link), shrunk)),
    {
        proof {
            lemma_root_removed(*link);
        }
        let two = match link {
            Some(node) => node.left_child.is_some() && node.right_child.is_some(),
            None => false,
        };
        if two {
            let mut node = link.take().unwrap();
            let (before, short) = Node::remove_max(&mut node.left_child);
            node.value = before;
            *link = Some(node);
            if short {
                Node::balance_after_remove_left(link)
            } else {
                false
            }
        } else {
            let (_, shrunk) = Node::splice_out(link);
            shrunk
        }
    }

    /// Takes `value` out of the subtree in a slot, if it is there, and says
    /// whether every path through the slot lost a black node by it. The
    /// subtree that results is [`removed`].
    ///
    /// The descent is that of a search. Where it ends at an empty slot the
    /// subtree stays untouched. Where it finds the value, that node is
    /// removed, and every node on the way back up whose subtree came back
    /// one black node short is rebalanced.
    pub fn remove(link: &mut Link<T>, value: &T) -> (shrunk: bool)
        requires
            total_order::<T>(),
            ordered(*old(link)),
            no_red_red(*old(link)),
            balanced(*old(link)),
        ensures
            (*final(link), shrunk) == removed(*old(link), *value),
            link_set(*final(link)) == link_set(*old(link)).remove(*value),
            ordered(*final(link)),
            !link_set(*old(link)).contains(*value) ==> *final(link) == *old(link) && !shrunk,
            keeps_rules(color_of(*old(link)), black_height(*old(link)), (*final(link), shrunk)),
        decreases *old(link),
    {
        proof {
            lemma_removed(*link, *value);
            if *link is Some {
                lemma_node_content(*link);
            }
        }
        match link {
            None => false,
            Some(node) => match value.cmp(&node.value) {
                Ordering::Less => {
                    if Node::remove(&mut node.left_child, value) {
                        Node::balance_after_remove_left(link)
                    } else {
                        false
                    }
                },
                Ordering::Equal => Node::remove_self(link),
                Ordering::Greater => {
                    if Node::remove(&mut node.right_child, value) {
                        Node::balance_after_remove_right(link)
                    } else {
                        false
                    }
                },
            },
        }
    }
}

} // verus!
