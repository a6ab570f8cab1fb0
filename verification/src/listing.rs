//! Why the walk of a tree parent first reaches every slot, and each once.

use vstd::prelude::*;
use vstd::seq_lib::lemma_no_dup_in_concat;
use vstd::set_lib::{lemma_int_range, set_int_range};
use crate::id_tree::{is_tree, link, slot_is_linked, Node};
use crate::preorder::{preorder, preorder_chain, preorder_from};

verus! {

/// Whether slot `a` is slot `x` or one of its ancestors.
pub open spec fn is_ancestor(nodes: Seq<Node>, a: int, x: int) -> bool
    decreases x,
{
    x == a || (0 <= x < nodes.len() && (match nodes[x].parent {
        Some(q) => q.index < x && is_ancestor(nodes, a, q.index as int),
        None => false,
    }))
}

/// Whether `order` lists the slots of an arena of `len` slots, each once.
pub open spec fn is_listing(order: Seq<int>, len: int) -> bool {
    &&& order.no_duplicates()
    &&& forall|k: int| 0 <= k < order.len() ==> 0 <= #[trigger] order[k] < len
    &&& forall|x: int| 0 <= x < len ==> order.contains(x)
}

/// What is in one of two sequences is in both of them joined, and nothing
/// else is.
pub proof fn lemma_contains_add(a: Seq<int>, b: Seq<int>, x: int)
    ensures
        (a + b).contains(x) == (a.contains(x) || b.contains(x)),
{
    if a.contains(x) {
        let k = choose|k: int| 0 <= k < a.len() && a[k] == x;
        assert((a + b)[k] == x);
    }
    if b.contains(x) {
        let k = choose|k: int| 0 <= k < b.len() && b[k] == x;
        assert((a + b)[a.len() + k] == x);
    }
    if (a + b).contains(x) {
        let k = choose|k: int| 0 <= k < (a + b).len() && (a + b)[k] == x;
        if k < a.len() {
            assert(a[k] == x);
        } else {
            assert(b[k - a.len()] == x);
        }
    }
}

/// The walk of the subtree of `i` reaches `i` and what the walk from its
/// first child on reaches.
pub proof fn lemma_from_members(nodes: Seq<Node>, i: int, x: int)
    requires
        is_tree(nodes),
        0 <= i < nodes.len(),
    ensures
        preorder_from(nodes, i).contains(x) == (x == i || (nodes[i].first_child matches Some(f)
            && preorder_chain(nodes, f.index as int).contains(x))),
        nodes[i].first_child matches Some(f) ==> i < f.index < nodes.len(),
{
    assert(slot_is_linked(nodes, i));
    assert(seq![i].contains(x) == (x == i)) by {
        if x == i {
            assert(seq![i][0] == x);
        }
    }
    match nodes[i].first_child {
        Some(f) => {
            assert(slot_is_linked(nodes, f.index as int));
            lemma_contains_add(seq![i], preorder_chain(nodes, f.index as int), x);
        },
        None => {
            lemma_contains_add(seq![i], Seq::empty(), x);
        },
    }
}

/// The walk from `c` on reaches what the walk of the subtree of `c` reaches
/// and what the walk from its next sibling on reaches.
pub proof fn lemma_chain_members(nodes: Seq<Node>, c: int, x: int)
    requires
        is_tree(nodes),
        0 <= c < nodes.len(),
    ensures
        preorder_chain(nodes, c).contains(x) == (preorder_from(nodes, c).contains(x) || (
        nodes[c].next_sibling matches Some(s) && preorder_chain(nodes, s.index as int).contains(x))),
        nodes[c].next_sibling matches Some(s) ==> c < s.index < nodes.len() && nodes[s.index as int].parent
            == nodes[c].parent && nodes[c].parent is Some,
{
    assert(slot_is_linked(nodes, c));
    match nodes[c].next_sibling {
        Some(s) => {
            lemma_contains_add(preorder_from(nodes, c), preorder_chain(nodes, s.index as int), x);
        },
        None => {
            lemma_contains_add(preorder_from(nodes, c), Seq::empty(), x);
        },
    }
}

/// The walk of the subtree of `i` reaches no slot before `i` and none
/// outside the arena.
pub proof fn lemma_from_bounds(nodes: Seq<Node>, i: int, x: int)
    requires
        is_tree(nodes),
        0 <= i < nodes.len(),
        preorder_from(nodes, i).contains(x),
    ensures
        i <= x < nodes.len(),
    decreases nodes.len() - i, 1int,
{
    lemma_from_members(nodes, i, x);
    if x != i {
        lemma_chain_bounds(nodes, nodes[i].first_child.unwrap().index as int, x);
    }
}

/// The walk from `c` on reaches no slot before `c` and none outside the
/// arena.
pub proof fn lemma_chain_bounds(nodes: Seq<Node>, c: int, x: int)
    requires
        is_tree(nodes),
        0 <= c < nodes.len(),
        preorder_chain(nodes, c).contains(x),
    ensures
        c <= x < nodes.len(),
    decreases nodes.len() - c, 2int,
{
    lemma_chain_members(nodes, c, x);
    if preorder_from(nodes, c).contains(x) {
        lemma_from_bounds(nodes, c, x);
    } else {
        lemma_chain_bounds(nodes, nodes[c].next_sibling.unwrap().index as int, x);
    }
}

/// An ancestor stands before its descendants.
pub proof fn lemma_ancestor_is_before(nodes: Seq<Node>, a: int, x: int)
    requires
        is_ancestor(nodes, a, x),
    ensures
        a <= x,
    decreases x,
{
    if x != a {
        lemma_ancestor_is_before(nodes, a, nodes[x].parent.unwrap().index as int);
    }
}

/// The parent of an ancestor is an ancestor.
pub proof fn lemma_ancestor_of_ancestor(nodes: Seq<Node>, i: int, t: int, x: int)
    requires
        0 <= i < t < nodes.len(),
        nodes.len() <= usize::MAX,
        nodes[t].parent == link(i),
        is_ancestor(nodes, t, x),
    ensures
        is_ancestor(nodes, i, x),
    decreases x,
{
    if x == t {
        assert(is_ancestor(nodes, i, i));
    } else {
        lemma_ancestor_of_ancestor(nodes, i, t, nodes[x].parent.unwrap().index as int);
    }
}

/// The walk of the subtree of `i` reaches descendants of `i` only.
pub proof fn lemma_from_descends(nodes: Seq<Node>, i: int, x: int)
    requires
        is_tree(nodes),
        0 <= i < nodes.len(),
        preorder_from(nodes, i).contains(x),
    ensures
        is_ancestor(nodes, i, x),
    decreases nodes.len() - i, 1int,
{
    lemma_from_members(nodes, i, x);
    if x != i {
        let f = nodes[i].first_child.unwrap().index as int;
        assert(slot_is_linked(nodes, i));
        let t = lemma_chain_descends(nodes, f, x);
        lemma_ancestor_of_ancestor(nodes, i, t, x);
    }
}

/// The walk from `c` on reaches only descendants of `c` and of siblings
/// behind it: the result is the one of them that `x` descends from.
pub proof fn lemma_chain_descends(nodes: Seq<Node>, c: int, x: int) -> (t: int)
    requires
        is_tree(nodes),
        0 <= c < nodes.len(),
        preorder_chain(nodes, c).contains(x),
    ensures
        c <= t < nodes.len(),
        nodes[t].parent == nodes[c].parent,
        is_ancestor(nodes, t, x),
        t == c <==> preorder_from(nodes, c).contains(x),
    decreases nodes.len() - c, 2int,
{
    lemma_chain_members(nodes, c, x);
    if preorder_from(nodes, c).contains(x) {
        lemma_from_descends(nodes, c, x);
        c
    } else {
        lemma_chain_descends(nodes, nodes[c].next_sibling.unwrap().index as int, x)
    }
}

/// A slot descends from one child of a parent only.
pub proof fn lemma_one_branch(nodes: Seq<Node>, a: int, b: int, x: int)
    requires
        0 <= a < nodes.len(),
        0 <= b < nodes.len(),
        nodes[a].parent == nodes[b].parent,
        nodes[a].parent matches Some(p) && p.index < a && p.index < b,
        is_ancestor(nodes, a, x),
        is_ancestor(nodes, b, x),
    ensures
        a == b,
    decreases x,
{
    let p = nodes[a].parent.unwrap().index as int;
    if x == a && x == b {
    } else if x == a {
        lemma_ancestor_is_before(nodes, b, p);
    } else if x == b {
        lemma_ancestor_is_before(nodes, a, p);
    } else {
        lemma_one_branch(nodes, a, b, nodes[x].parent.unwrap().index as int);
    }
}

/// The walk of the subtree of `i` reaches no slot twice.
pub proof fn lemma_from_distinct(nodes: Seq<Node>, i: int)
    requires
        is_tree(nodes),
        0 <= i < nodes.len(),
    ensures
        preorder_from(nodes, i).no_duplicates(),
    decreases nodes.len() - i, 1int,
{
    lemma_from_members(nodes, i, i);
    match nodes[i].first_child {
        Some(f) => {
            let below = preorder_chain(nodes, f.index as int);
            lemma_chain_distinct(nodes, f.index as int);
            assert forall|j: int, k: int| 0 <= j < seq![i].len() && 0 <= k < below.len() implies seq![
                i,
            ][j] != below[k] by {
                assert(below.contains(below[k]));
                lemma_chain_bounds(nodes, f.index as int, below[k]);
            }
            lemma_no_dup_in_concat(seq![i], below);
        },
        None => {
            assert(preorder_from(nodes, i) =~= seq![i]);
        },
    }
}

/// The walk from `c` on reaches no slot twice.
pub proof fn lemma_chain_distinct(nodes: Seq<Node>, c: int)
    requires
        is_tree(nodes),
        0 <= c < nodes.len(),
    ensures
        preorder_chain(nodes, c).no_duplicates(),
    decreases nodes.len() - c, 2int,
{
    lemma_chain_members(nodes, c, c);
    lemma_from_distinct(nodes, c);
    match nodes[c].next_sibling {
        Some(s) => {
            let here = preorder_from(nodes, c);
            let behind = preorder_chain(nodes, s.index as int);
            lemma_chain_distinct(nodes, s.index as int);
            assert(slot_is_linked(nodes, c));
            assert forall|j: int, k: int| 0 <= j < here.len() && 0 <= k < behind.len() implies here[j]
                != behind[k] by {
                if here[j] == behind[k] {
                    let x = here[j];
                    assert(here.contains(x));
                    assert(behind.contains(x));
                    lemma_from_descends(nodes, c, x);
                    let t = lemma_chain_descends(nodes, s.index as int, x);
                    assert(slot_is_linked(nodes, t));
                    lemma_one_branch(nodes, c, t, x);
                }
            }
            lemma_no_dup_in_concat(here, behind);
        },
        None => {
            assert(preorder_chain(nodes, c) =~= preorder_from(nodes, c));
        },
    }
}

/// With a slot, the walk of the subtree of `i` reaches the slot's first
/// child, and its next sibling unless the slot is `i` itself.
pub proof fn lemma_from_closed(nodes: Seq<Node>, i: int, y: int)
    requires
        is_tree(nodes),
        0 <= i < nodes.len(),
        preorder_from(nodes, i).contains(y),
    ensures
        nodes[y].first_child matches Some(f) ==> preorder_from(nodes, i).contains(f.index as int),
        y != i ==> (nodes[y].next_sibling matches Some(s) ==> preorder_from(nodes, i).contains(
            s.index as int,
        )),
    decreases nodes.len() - i, 1int,
{
    lemma_from_members(nodes, i, y);
    if y == i {
        if let Some(f) = nodes[i].first_child {
            lemma_from_members(nodes, i, f.index as int);
            lemma_chain_members(nodes, f.index as int, f.index as int);
            lemma_from_members(nodes, f.index as int, f.index as int);
        }
    } else {
        let f = nodes[i].first_child.unwrap().index as int;
        lemma_chain_closed(nodes, f, y);
        if let Some(g) = nodes[y].first_child {
            lemma_from_members(nodes, i, g.index as int);
        }
        if let Some(s) = nodes[y].next_sibling {
            lemma_from_members(nodes, i, s.index as int);
        }
    }
}

/// With a slot, the walk from `c` on reaches the slot's first child and its
/// next sibling.
pub proof fn lemma_chain_closed(nodes: Seq<Node>, c: int, y: int)
    requires
        is_tree(nodes),
        0 <= c < nodes.len(),
        preorder_chain(nodes, c).contains(y),
    ensures
        nodes[y].first_child matches Some(f) ==> preorder_chain(nodes, c).contains(f.index as int),
        nodes[y].next_sibling matches Some(s) ==> preorder_chain(nodes, c).contains(s.index as int),
    decreases nodes.len() - c, 2int,
{
    lemma_chain_members(nodes, c, y);
    if let Some(g) = nodes[y].first_child {
        lemma_chain_members(nodes, c, g.index as int);
    }
    if let Some(s) = nodes[y].next_sibling {
        lemma_chain_members(nodes, c, s.index as int);
    }
    if preorder_from(nodes, c).contains(y) {
        lemma_from_closed(nodes, c, y);
        if y == c {
            if let Some(s) = nodes[c].next_sibling {
                lemma_chain_members(nodes, s.index as int, s.index as int);
                lemma_from_members(nodes, s.index as int, s.index as int);
            }
        }
    } else {
        lemma_chain_closed(nodes, nodes[c].next_sibling.unwrap().index as int, y);
    }
}

/// The walk of a tree reaches every slot.
pub proof fn lemma_all_reached(nodes: Seq<Node>, x: int)
    requires
        is_tree(nodes),
        0 <= x < nodes.len(),
    ensures
        preorder(nodes).contains(x),
    decreases x,
{
    assert(slot_is_linked(nodes, x));
    if x == 0 {
        lemma_from_members(nodes, 0, 0);
    } else {
        let p = nodes[x].parent.unwrap().index as int;
        match nodes[x].previous_sibling {
            Some(q) => {
                lemma_all_reached(nodes, q.index as int);
                assert(slot_is_linked(nodes, q.index as int));
                lemma_from_closed(nodes, 0, q.index as int);
            },
            None => {
                lemma_all_reached(nodes, p);
                lemma_from_closed(nodes, 0, p);
            },
        }
    }
}

/// A listing of the slots of an arena is as long as the arena.
pub proof fn lemma_listing_length(order: Seq<int>, len: int)
    requires
        is_listing(order, len),
        0 <= len,
    ensures
        order.len() == len,
{
    order.unique_seq_to_set();
    lemma_int_range(0, len);
    assert forall|x: int| order.to_set().contains(x) == set_int_range(0, len).contains(x) by {
        if order.to_set().contains(x) {
            assert(order.contains(x));
            let k = choose|k: int| 0 <= k < order.len() && order[k] == x;
            assert(0 <= order[k] < len);
        }
        if 0 <= x < len {
            assert(order.contains(x));
        }
    }
    assert(order.to_set() =~= set_int_range(0, len));
}

/// The walk of a tree parent first lists the slots of the tree, each once.
pub proof fn lemma_preorder_is_a_listing(nodes: Seq<Node>)
    requires
        is_tree(nodes),
    ensures
        is_listing(preorder(nodes), nodes.len() as int),
        preorder(nodes).len() == nodes.len(),
{
    lemma_preorder_listing(nodes);
    lemma_listing_length(preorder(nodes), nodes.len() as int);
}

/// The walk of a tree reaches every slot, each once, and nothing else.
proof fn lemma_preorder_listing(nodes: Seq<Node>)
    requires
        is_tree(nodes),
    ensures
        is_listing(preorder(nodes), nodes.len() as int),
{
    let order = preorder(nodes);
    lemma_from_distinct(nodes, 0);
    assert forall|k: int| 0 <= k < order.len() implies 0 <= #[trigger] order[k] < nodes.len() by {
        assert(order.contains(order[k]));
        lemma_from_bounds(nodes, 0, order[k]);
    }
    assert forall|x: int| 0 <= x < nodes.len() implies order.contains(x) by {
        lemma_all_reached(nodes, x);
    }
}

} // verus!
