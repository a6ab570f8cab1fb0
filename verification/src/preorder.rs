//! The order in which a tree is walked parent first, and the layout in which
//! that order is the order of the slots.

use vstd::prelude::*;
use crate::id_tree::{is_tree, link, slot_is_linked, Node};

verus! {

/// The slots of the subtree of `i`, the parent before its children and the
/// children in the order of their links.
pub open spec fn preorder_from(nodes: Seq<Node>, i: int) -> Seq<int>
    decreases nodes.len() - i, 1int,
{
    if 0 <= i < nodes.len() {
        seq![i] + (match nodes[i].first_child {
            Some(c) => if i < c.index < nodes.len() {
                preorder_chain(nodes, c.index as int)
            } else {
                Seq::empty()
            },
            None => Seq::empty(),
        })
    } else {
        Seq::empty()
    }
}

/// The slots of the subtree of `c`, followed by those of the subtrees of the
/// siblings behind `c`.
pub open spec fn preorder_chain(nodes: Seq<Node>, c: int) -> Seq<int>
    decreases nodes.len() - c, 2int,
{
    if 0 <= c < nodes.len() {
        preorder_from(nodes, c) + (match nodes[c].next_sibling {
            Some(s) => if c < s.index < nodes.len() {
                preorder_chain(nodes, s.index as int)
            } else {
                Seq::empty()
            },
            None => Seq::empty(),
        })
    } else {
        Seq::empty()
    }
}

/// The slots of a tree in the order in which it is walked parent first.
pub open spec fn preorder(nodes: Seq<Node>) -> Seq<int> {
    preorder_from(nodes, 0)
}

/// The slot behind the subtree of `i`, where every subtree lies in
/// consecutive slots: the slot behind the subtree of the last child, or the
/// slot behind `i` if `i` has no child.
pub open spec fn subtree_end(nodes: Seq<Node>, i: int) -> int
    decreases nodes.len() - i,
{
    if 0 <= i < nodes.len() {
        match nodes[i].last_child {
            Some(c) => if i < c.index < nodes.len() {
                subtree_end(nodes, c.index as int)
            } else {
                i + 1
            },
            None => i + 1,
        }
    } else {
        i + 1
    }
}

/// Whether the tree `nodes` is stored parent first: a first child stands in
/// the slot behind its parent, a next sibling in the slot behind the subtree
/// of the sibling before it, and the tree fills the arena.
pub open spec fn laid_out_in_preorder(nodes: Seq<Node>) -> bool {
    &&& is_tree(nodes)
    &&& forall|i: int|
        0 <= i < nodes.len() ==> ((#[trigger] nodes[i]).first_child matches Some(c) ==> c.index == i
            + 1)
    &&& forall|i: int|
        0 <= i < nodes.len() ==> ((#[trigger] nodes[i]).next_sibling matches Some(s) ==> s.index
            == subtree_end(nodes, i))
    &&& subtree_end(nodes, 0) == nodes.len()
}

/// The slots from `from` up to, but not including, `to`.
pub open spec fn slots(from: int, to: int) -> Seq<int> {
    Seq::new((to - from) as nat, |k: int| from + k)
}

/// The subtree of a slot ends behind the slot and inside the arena.
pub proof fn lemma_subtree_end_bounds(nodes: Seq<Node>, i: int)
    requires
        0 <= i < nodes.len(),
    ensures
        i < subtree_end(nodes, i) <= nodes.len(),
    decreases nodes.len() - i,
{
    if let Some(c) = nodes[i].last_child {
        if i < c.index < nodes.len() {
            lemma_subtree_end_bounds(nodes, c.index as int);
        }
    }
}

/// In a tree that is stored parent first, the subtree of slot `i` read
/// parent first is the run of slots from `i` to the end of the subtree.
pub proof fn lemma_preorder_from_is_a_run(nodes: Seq<Node>, i: int)
    requires
        laid_out_in_preorder(nodes),
        0 <= i < nodes.len(),
    ensures
        preorder_from(nodes, i) == slots(i, subtree_end(nodes, i)),
    decreases nodes.len() - i, 1int,
{
    assert(slot_is_linked(nodes, i));
    match nodes[i].first_child {
        Some(c) => {
            assert(c.index == i + 1);
            lemma_preorder_chain_is_a_run(nodes, c.index as int);
            lemma_subtree_end_bounds(nodes, i);
            assert(preorder_from(nodes, i) =~= slots(i, subtree_end(nodes, i)));
        },
        None => {
            assert(preorder_from(nodes, i) =~= slots(i, subtree_end(nodes, i)));
        },
    }
}

/// In a tree that is stored parent first, the subtrees of a child and of the
/// siblings behind it, read parent first, are the run of slots from the
/// child to the end of the subtree of their parent.
pub proof fn lemma_preorder_chain_is_a_run(nodes: Seq<Node>, c: int)
    requires
        laid_out_in_preorder(nodes),
        0 < c < nodes.len(),
    ensures
        nodes[c].parent is Some,
        c < subtree_end(nodes, nodes[c].parent.unwrap().index as int),
        preorder_chain(nodes, c) == slots(
            c,
            subtree_end(nodes, nodes[c].parent.unwrap().index as int),
        ),
    decreases nodes.len() - c, 2int,
{
    assert(slot_is_linked(nodes, c));
    let p = nodes[c].parent.unwrap().index as int;
    lemma_preorder_from_is_a_run(nodes, c);
    lemma_subtree_end_bounds(nodes, c);
    match nodes[c].next_sibling {
        Some(s) => {
            assert(s.index == subtree_end(nodes, c));
            lemma_preorder_chain_is_a_run(nodes, s.index as int);
            assert(preorder_chain(nodes, c) =~= slots(c, subtree_end(nodes, p)));
        },
        None => {
            assert(nodes[p].last_child == link(c));
            assert(subtree_end(nodes, p) == subtree_end(nodes, c));
            assert(preorder_chain(nodes, c) =~= slots(c, subtree_end(nodes, p)));
        },
    }
}

/// A tree that is stored parent first is walked parent first by going
/// through its slots in order.
pub proof fn lemma_preorder_is_slot_order(nodes: Seq<Node>)
    requires
        laid_out_in_preorder(nodes),
    ensures
        preorder(nodes) == slots(0, nodes.len() as int),
{
    lemma_preorder_from_is_a_run(nodes, 0);
}

/// The slot `c` and the siblings behind it, in the order of their links.
pub open spec fn sibling_run(nodes: Seq<Node>, c: int) -> Seq<int>
    decreases nodes.len() - c,
{
    if 0 <= c < nodes.len() {
        seq![c] + (match nodes[c].next_sibling {
            Some(s) => if c < s.index < nodes.len() {
                sibling_run(nodes, s.index as int)
            } else {
                Seq::empty()
            },
            None => Seq::empty(),
        })
    } else {
        Seq::empty()
    }
}

/// The children of slot `p`, from the first to the last.
pub open spec fn children(nodes: Seq<Node>, p: int) -> Seq<int> {
    match nodes[p].first_child {
        Some(c) => sibling_run(nodes, c.index as int),
        None => Seq::empty(),
    }
}

} // verus!
