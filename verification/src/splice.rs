//! Splicing one tree under a slot of another: what the result is, slot by
//! slot, and what it keeps of the two trees.

use vstd::prelude::*;
use crate::id_tree::{is_tree, link, node_in_range, slot_is_linked, Node, NodeId};
use crate::preorder::{children, laid_out_in_preorder, sibling_run, subtree_end};

verus! {

/// The link `l` after the arena it points into was moved `offset` slots up.
pub open spec fn shift_link(l: Option<NodeId>, offset: int) -> Option<NodeId> {
    match l {
        Some(id) => link(id.index + offset),
        None => None,
    }
}

/// The slot `node` after the arena it belongs to was moved `offset` slots up.
pub open spec fn shift_node(node: Node, offset: int) -> Node {
    Node {
        parent: shift_link(node.parent, offset),
        previous_sibling: shift_link(node.previous_sibling, offset),
        next_sibling: shift_link(node.next_sibling, offset),
        first_child: shift_link(node.first_child, offset),
        last_child: shift_link(node.last_child, offset),
    }
}

/// Slot `i` of the topology that results from splicing the tree `donor`
/// under slot `head` of the tree `receiver`.
pub open spec fn merged_slot(receiver: Seq<Node>, head: int, donor: Seq<Node>, i: int) -> Node
    recommends
        0 <= head < receiver.len(),
        donor.len() > 0,
        0 <= i < receiver.len() + donor.len(),
{
    let offset = receiver.len() as int;
    let last = receiver[head].last_child;
    if i < offset {
        let x = receiver[i];
        Node {
            parent: x.parent,
            previous_sibling: x.previous_sibling,
            next_sibling: if last == link(i) {
                link(offset)
            } else {
                x.next_sibling
            },
            first_child: if i == head && x.first_child is None {
                link(offset)
            } else {
                x.first_child
            },
            last_child: if i == head {
                link(offset)
            } else {
                x.last_child
            },
        }
    } else if i == offset {
        Node {
            parent: link(head),
            previous_sibling: last,
            next_sibling: None,
            first_child: shift_link(donor[0].first_child, offset),
            last_child: shift_link(donor[0].last_child, offset),
        }
    } else {
        shift_node(donor[i - offset], offset)
    }
}

/// The topology that results from splicing the tree `donor` under slot
/// `head` of the tree `receiver`.
///
/// The slots of the receiver keep their place and those of the donor follow,
/// every donor link moved up by the receiver's length. The donor's root
/// becomes the last child of `head`: it is linked behind the former last
/// child, if there was one, and becomes the first child otherwise.
pub open spec fn merged(receiver: Seq<Node>, head: int, donor: Seq<Node>) -> Seq<Node>
    recommends
        0 <= head < receiver.len(),
        donor.len() > 0,
{
    Seq::new(receiver.len() + donor.len(), |i: int| merged_slot(receiver, head, donor, i))
}

proof fn lemma_merged_receiver_slot(receiver: Seq<Node>, head: int, donor: Seq<Node>, i: int)
    requires
        is_tree(receiver),
        is_tree(donor),
        0 <= head < receiver.len(),
        receiver.len() + donor.len() <= usize::MAX,
        0 <= i < receiver.len(),
    ensures
        slot_is_linked(merged(receiver, head, donor), i),
{
    let m = merged(receiver, head, donor);
    let offset = receiver.len() as int;
    let last = receiver[head].last_child;
    let x = receiver[i];
    let y = m[i];
    assert(slot_is_linked(receiver, head));
    assert(slot_is_linked(receiver, i));
    assert(slot_is_linked(donor, 0));
    assert(y == merged_slot(receiver, head, donor, i));
    assert(m[offset] == merged_slot(receiver, head, donor, offset));
    if let Some(l) = last {
        assert(m[l.index as int] == merged_slot(receiver, head, donor, l.index as int));
    }
    assert(m[head] == merged_slot(receiver, head, donor, head));
    if let Some(n) = x.next_sibling {
        assert(m[n.index as int] == merged_slot(receiver, head, donor, n.index as int));
    }
    if let Some(p) = x.previous_sibling {
        assert(m[p.index as int] == merged_slot(receiver, head, donor, p.index as int));
    }
    if let Some(c) = x.first_child {
        assert(m[c.index as int] == merged_slot(receiver, head, donor, c.index as int));
    }
    if let Some(c) = x.last_child {
        assert(m[c.index as int] == merged_slot(receiver, head, donor, c.index as int));
    }
    if let Some(p) = x.parent {
        assert(m[p.index as int] == merged_slot(receiver, head, donor, p.index as int));
    }
    assert(node_in_range(y, m.len() as int));
}

proof fn lemma_merged_donor_slot(receiver: Seq<Node>, head: int, donor: Seq<Node>, k: int)
    requires
        is_tree(receiver),
        is_tree(donor),
        0 <= head < receiver.len(),
        receiver.len() + donor.len() <= usize::MAX,
        0 <= k < donor.len(),
    ensures
        slot_is_linked(merged(receiver, head, donor), receiver.len() + k),
{
    let m = merged(receiver, head, donor);
    let offset = receiver.len() as int;
    let i = offset + k;
    let last = receiver[head].last_child;
    let x = donor[k];
    let y = m[i];
    assert(slot_is_linked(receiver, head));
    assert(slot_is_linked(donor, k));
    assert(slot_is_linked(donor, 0));
    assert(y == merged_slot(receiver, head, donor, i));
    assert(m[offset] == merged_slot(receiver, head, donor, offset));
    assert(m[head] == merged_slot(receiver, head, donor, head));
    if let Some(l) = last {
        assert(m[l.index as int] == merged_slot(receiver, head, donor, l.index as int));
    }
    if let Some(n) = x.next_sibling {
        assert(m[n.index + offset] == merged_slot(receiver, head, donor, n.index + offset));
    }
    if let Some(p) = x.previous_sibling {
        assert(m[p.index + offset] == merged_slot(receiver, head, donor, p.index + offset));
    }
    if let Some(c) = x.first_child {
        assert(m[c.index + offset] == merged_slot(receiver, head, donor, c.index + offset));
    }
    if let Some(c) = x.last_child {
        assert(m[c.index + offset] == merged_slot(receiver, head, donor, c.index + offset));
    }
    if let Some(p) = x.parent {
        assert(m[p.index + offset] == merged_slot(receiver, head, donor, p.index + offset));
    }
    assert(node_in_range(y, m.len() as int));
}

/// Splicing a tree under a slot of a tree gives a tree.
pub proof fn lemma_merged_is_tree(receiver: Seq<Node>, head: int, donor: Seq<Node>)
    requires
        is_tree(receiver),
        is_tree(donor),
        0 <= head < receiver.len(),
        receiver.len() + donor.len() <= usize::MAX,
    ensures
        is_tree(merged(receiver, head, donor)),
{
    let m = merged(receiver, head, donor);
    let offset = receiver.len() as int;
    assert forall|i: int| 0 <= i < m.len() implies #[trigger] slot_is_linked(m, i) by {
        if i < offset {
            lemma_merged_receiver_slot(receiver, head, donor, i);
        } else {
            lemma_merged_donor_slot(receiver, head, donor, i - offset);
        }
    }
}

/// The topology of a root with `n` children that have no children of
/// their own: slot 0 is the root, and the children follow in slots 1 to
/// `n`, each linked to its neighbours.
pub open spec fn star(n: int) -> Seq<Node>
    recommends
        0 <= n < usize::MAX,
{
    Seq::new(
        (n + 1) as nat,
        |i: int|
            if i == 0 {
                Node {
                    parent: None,
                    previous_sibling: None,
                    next_sibling: None,
                    first_child: if n > 0 {
                        link(1)
                    } else {
                        None
                    },
                    last_child: if n > 0 {
                        link(n)
                    } else {
                        None
                    },
                }
            } else {
                Node {
                    parent: link(0),
                    previous_sibling: if i == 1 {
                        None
                    } else {
                        link(i - 1)
                    },
                    next_sibling: if i == n {
                        None
                    } else {
                        link(i + 1)
                    },
                    first_child: None,
                    last_child: None,
                }
            },
    )
}

/// A root with any number of childless children is a tree.
pub proof fn lemma_star_is_tree(n: int)
    requires
        0 <= n < usize::MAX,
    ensures
        is_tree(star(n)),
{
    let s = star(n);
    assert forall|i: int| 0 <= i < s.len() implies #[trigger] slot_is_linked(s, i) by {
        assert(node_in_range(s[i], s.len() as int));
    }
}

/// Splicing keeps every link between two slots of the donor, moved up by
/// the length of the receiver: slot `b` is the parent (the previous sibling,
/// the next sibling, the first child, the last child) of slot `a` in the
/// donor exactly if slot `b + offset` is that of slot `a + offset` in the
/// result.
pub proof fn lemma_merge_keeps_donor_links(
    receiver: Seq<Node>,
    head: int,
    donor: Seq<Node>,
    a: int,
    b: int,
)
    requires
        is_tree(receiver),
        is_tree(donor),
        0 <= head < receiver.len(),
        receiver.len() + donor.len() <= usize::MAX,
        0 <= a < donor.len(),
        0 <= b < donor.len(),
    ensures
        ({
            let offset = receiver.len() as int;
            let m = merged(receiver, head, donor);
            &&& (donor[a].parent == link(b)) == (m[offset + a].parent == link(offset + b))
            &&& (donor[a].previous_sibling == link(b)) == (m[offset + a].previous_sibling == link(
                offset + b,
            ))
            &&& (donor[a].next_sibling == link(b)) == (m[offset + a].next_sibling == link(offset + b))
            &&& (donor[a].first_child == link(b)) == (m[offset + a].first_child == link(offset + b))
            &&& (donor[a].last_child == link(b)) == (m[offset + a].last_child == link(offset + b))
        }),
{
    let offset = receiver.len() as int;
    let m = merged(receiver, head, donor);
    assert(m[offset + a] == merged_slot(receiver, head, donor, offset + a));
    assert(slot_is_linked(donor, a));
    assert(slot_is_linked(donor, 0));
    assert(slot_is_linked(receiver, head));
}

/// Splicing changes no link of the receiver but those that tie in the
/// donor's root: the child links of the insertion point, and the next
/// sibling of its former last child.
pub proof fn lemma_merge_keeps_receiver_links(
    receiver: Seq<Node>,
    head: int,
    donor: Seq<Node>,
    i: int,
)
    requires
        is_tree(receiver),
        is_tree(donor),
        0 <= head < receiver.len(),
        receiver.len() + donor.len() <= usize::MAX,
        0 <= i < receiver.len(),
    ensures
        ({
            let m = merged(receiver, head, donor);
            &&& m[i].parent == receiver[i].parent
            &&& m[i].previous_sibling == receiver[i].previous_sibling
            &&& receiver[i].next_sibling is Some ==> m[i].next_sibling == receiver[i].next_sibling
            &&& receiver[i].first_child is Some ==> m[i].first_child == receiver[i].first_child
            &&& i != head ==> m[i].first_child == receiver[i].first_child && m[i].last_child
                == receiver[i].last_child
            &&& receiver[head].last_child != link(i) ==> m[i].next_sibling
                == receiver[i].next_sibling
        }),
{
    let m = merged(receiver, head, donor);
    assert(m[i] == merged_slot(receiver, head, donor, i));
    assert(slot_is_linked(receiver, head));
    assert(slot_is_linked(receiver, i));
}

/// A root with any number of childless children is stored parent first.
pub proof fn lemma_star_is_in_preorder(n: int)
    requires
        0 <= n < usize::MAX,
    ensures
        laid_out_in_preorder(star(n)),
{
    let s = star(n);
    lemma_star_is_tree(n);
    assert forall|i: int| 0 < i < s.len() implies subtree_end(s, i) == i + 1 by {}
    if n > 0 {
        assert(s[0].last_child == link(n));
        assert(subtree_end(s, 0) == subtree_end(s, n));
    }
}

/// The children of the root of a star are the slots 1 to `n`, in that order.
pub proof fn lemma_star_children(n: int)
    requires
        0 <= n < usize::MAX,
    ensures
        children(star(n), 0) == Seq::new(n as nat, |k: int| k + 1),
{
    let s = star(n);
    if n > 0 {
        lemma_star_run(n, 1);
        assert(children(s, 0) =~= Seq::new(n as nat, |k: int| k + 1));
    } else {
        assert(children(s, 0) =~= Seq::new(n as nat, |k: int| k + 1));
    }
}

/// In a star, the siblings from slot `c` on are the slots `c` to `n`.
proof fn lemma_star_run(n: int, c: int)
    requires
        0 < c <= n < usize::MAX,
    ensures
        sibling_run(star(n), c) == Seq::new((n + 1 - c) as nat, |k: int| c + k),
    decreases n - c,
{
    let s = star(n);
    if c < n {
        lemma_star_run(n, c + 1);
    }
    assert(sibling_run(s, c) =~= Seq::new((n + 1 - c) as nat, |k: int| c + k));
}

/// Behind a splice under the root, the subtree of a slot of the donor ends
/// where it ended in the donor, moved up by the length of the receiver.
proof fn lemma_merged_donor_end(receiver: Seq<Node>, donor: Seq<Node>, k: int)
    requires
        is_tree(receiver),
        is_tree(donor),
        receiver.len() + donor.len() <= usize::MAX,
        0 <= k < donor.len(),
    ensures
        subtree_end(merged(receiver, 0, donor), receiver.len() + k) == receiver.len() + subtree_end(
            donor,
            k,
        ),
    decreases donor.len() - k,
{
    let m = merged(receiver, 0, donor);
    let offset = receiver.len() as int;
    assert(m[offset + k] == merged_slot(receiver, 0, donor, offset + k));
    assert(slot_is_linked(donor, k));
    if let Some(c) = donor[k].last_child {
        assert(slot_is_linked(donor, c.index as int));
        lemma_merged_donor_end(receiver, donor, c.index as int);
    }
}

/// Behind a splice under the root, the subtree of a slot of the receiver
/// other than the root ends where it ended before.
proof fn lemma_merged_receiver_end(receiver: Seq<Node>, donor: Seq<Node>, i: int)
    requires
        is_tree(receiver),
        is_tree(donor),
        receiver.len() + donor.len() <= usize::MAX,
        0 < i < receiver.len(),
    ensures
        subtree_end(merged(receiver, 0, donor), i) == subtree_end(receiver, i),
    decreases receiver.len() - i,
{
    let m = merged(receiver, 0, donor);
    assert(m[i] == merged_slot(receiver, 0, donor, i));
    assert(slot_is_linked(receiver, i));
    if let Some(c) = receiver[i].last_child {
        assert(slot_is_linked(receiver, c.index as int));
        lemma_merged_receiver_end(receiver, donor, c.index as int);
    }
}

/// Splicing a tree that is stored parent first under the root of another
/// gives a tree that is stored parent first.
pub proof fn lemma_merged_is_in_preorder(receiver: Seq<Node>, donor: Seq<Node>)
    requires
        laid_out_in_preorder(receiver),
        laid_out_in_preorder(donor),
        receiver.len() + donor.len() <= usize::MAX,
    ensures
        laid_out_in_preorder(merged(receiver, 0, donor)),
{
    let m = merged(receiver, 0, donor);
    let offset = receiver.len() as int;
    lemma_merged_is_tree(receiver, 0, donor);
    assert(slot_is_linked(receiver, 0));
    assert(slot_is_linked(donor, 0));
    assert(m[0] == merged_slot(receiver, 0, donor, 0));
    lemma_merged_donor_end(receiver, donor, 0);
    assert(subtree_end(m, 0) == subtree_end(m, offset));
    assert forall|i: int| 0 <= i < m.len() implies ((#[trigger] m[i]).first_child matches Some(c)
        ==> c.index == i + 1) by {
        assert(m[i] == merged_slot(receiver, 0, donor, i));
        if i < offset {
            assert(slot_is_linked(receiver, i));
            assert(receiver[i].first_child matches Some(c) ==> c.index == i + 1);
            if i == 0 && receiver[0].first_child is None {
                assert(subtree_end(receiver, 0) == 1);
            }
        } else {
            assert(slot_is_linked(donor, i - offset));
            assert(donor[i - offset].first_child matches Some(c) ==> c.index == i - offset + 1);
        }
    }
    assert forall|i: int| 0 <= i < m.len() implies ((#[trigger] m[i]).next_sibling matches Some(s)
        ==> s.index == subtree_end(m, i)) by {
        assert(m[i] == merged_slot(receiver, 0, donor, i));
        if i == 0 {
        } else if i < offset {
            assert(slot_is_linked(receiver, i));
            lemma_merged_receiver_end(receiver, donor, i);
            assert(receiver[i].next_sibling matches Some(s) ==> s.index == subtree_end(receiver, i));
            if receiver[0].last_child == link(i) {
                assert(subtree_end(receiver, 0) == subtree_end(receiver, i));
            }
        } else {
            assert(slot_is_linked(donor, i - offset));
            lemma_merged_donor_end(receiver, donor, i - offset);
            assert(donor[i - offset].next_sibling matches Some(s) ==> s.index == subtree_end(
                donor,
                i - offset,
            ));
        }
    }
}

/// Behind a splice, the run of siblings from a child `c` of the insertion
/// point on is what it was, with the donor's root at its end.
proof fn lemma_merged_run_under_head(receiver: Seq<Node>, head: int, donor: Seq<Node>, c: int)
    requires
        is_tree(receiver),
        is_tree(donor),
        0 <= head < receiver.len(),
        receiver.len() + donor.len() <= usize::MAX,
        0 <= c < receiver.len(),
        receiver[c].parent == link(head),
    ensures
        sibling_run(merged(receiver, head, donor), c) == sibling_run(receiver, c).push(
            receiver.len() as int,
        ),
    decreases receiver.len() - c,
{
    let m = merged(receiver, head, donor);
    let offset = receiver.len() as int;
    assert(m[c] == merged_slot(receiver, head, donor, c));
    assert(m[offset] == merged_slot(receiver, head, donor, offset));
    assert(slot_is_linked(receiver, c));
    assert(slot_is_linked(receiver, head));
    match receiver[c].next_sibling {
        Some(s) => {
            assert(slot_is_linked(receiver, s.index as int));
            lemma_merged_run_under_head(receiver, head, donor, s.index as int);
            assert(sibling_run(m, c) =~= sibling_run(receiver, c).push(offset));
        },
        None => {
            assert(receiver[head].last_child == link(c));
            assert(sibling_run(m, offset) =~= seq![offset]);
            assert(sibling_run(m, c) =~= sibling_run(receiver, c).push(offset));
        },
    }
}

/// Behind a splice, the run of siblings from a slot `c` of the receiver on
/// is what it was, unless they are children of the insertion point.
proof fn lemma_merged_run_elsewhere(receiver: Seq<Node>, head: int, donor: Seq<Node>, c: int)
    requires
        is_tree(receiver),
        is_tree(donor),
        0 <= head < receiver.len(),
        receiver.len() + donor.len() <= usize::MAX,
        0 <= c < receiver.len(),
        receiver[c].parent != link(head),
    ensures
        sibling_run(merged(receiver, head, donor), c) == sibling_run(receiver, c),
    decreases receiver.len() - c,
{
    let m = merged(receiver, head, donor);
    assert(m[c] == merged_slot(receiver, head, donor, c));
    assert(slot_is_linked(receiver, c));
    assert(slot_is_linked(receiver, head));
    if let Some(s) = receiver[c].next_sibling {
        assert(slot_is_linked(receiver, s.index as int));
        lemma_merged_run_elsewhere(receiver, head, donor, s.index as int);
    }
    assert(sibling_run(m, c) =~= sibling_run(receiver, c));
}

/// Behind a splice, the run of siblings from a slot `k` of the donor on is
/// what it was in the donor, moved up by the length of the receiver.
proof fn lemma_merged_run_in_donor(receiver: Seq<Node>, head: int, donor: Seq<Node>, k: int)
    requires
        is_tree(receiver),
        is_tree(donor),
        0 <= head < receiver.len(),
        receiver.len() + donor.len() <= usize::MAX,
        0 <= k < donor.len(),
    ensures
        sibling_run(merged(receiver, head, donor), receiver.len() + k) == sibling_run(
            donor,
            k,
        ).map_values(|slot: int| slot + receiver.len()),
    decreases donor.len() - k,
{
    let m = merged(receiver, head, donor);
    let offset = receiver.len() as int;
    let up = |slot: int| slot + receiver.len();
    assert(m[offset + k] == merged_slot(receiver, head, donor, offset + k));
    assert(slot_is_linked(donor, k));
    assert(slot_is_linked(donor, 0));
    if let Some(s) = donor[k].next_sibling {
        assert(slot_is_linked(donor, s.index as int));
        lemma_merged_run_in_donor(receiver, head, donor, s.index as int);
    }
    assert(sibling_run(m, offset + k) =~= sibling_run(donor, k).map_values(up));
}

/// A splice adds the donor's root behind the children of the insertion
/// point and leaves the children of every other slot of the receiver as
/// they were, in their order.
pub proof fn lemma_merge_appends_to_children(
    receiver: Seq<Node>,
    head: int,
    donor: Seq<Node>,
    i: int,
)
    requires
        is_tree(receiver),
        is_tree(donor),
        0 <= head < receiver.len(),
        receiver.len() + donor.len() <= usize::MAX,
        0 <= i < receiver.len(),
    ensures
        i == head ==> children(merged(receiver, head, donor), i) == children(receiver, i).push(
            receiver.len() as int,
        ),
        i != head ==> children(merged(receiver, head, donor), i) == children(receiver, i),
{
    let m = merged(receiver, head, donor);
    let offset = receiver.len() as int;
    assert(m[i] == merged_slot(receiver, head, donor, i));
    assert(m[offset] == merged_slot(receiver, head, donor, offset));
    assert(slot_is_linked(receiver, i));
    assert(slot_is_linked(receiver, head));
    match receiver[i].first_child {
        Some(c) => {
            if i == head {
                lemma_merged_run_under_head(receiver, head, donor, c.index as int);
            } else {
                lemma_merged_run_elsewhere(receiver, head, donor, c.index as int);
            }
        },
        None => {
            if i == head {
                assert(sibling_run(m, offset) =~= seq![offset]);
                assert(children(m, i) =~= children(receiver, i).push(offset));
            }
        },
    }
}

/// A splice keeps the children of every slot of the donor, in their order,
/// moved up by the length of the receiver.
pub proof fn lemma_merge_keeps_donor_children(
    receiver: Seq<Node>,
    head: int,
    donor: Seq<Node>,
    k: int,
)
    requires
        is_tree(receiver),
        is_tree(donor),
        0 <= head < receiver.len(),
        receiver.len() + donor.len() <= usize::MAX,
        0 <= k < donor.len(),
    ensures
        children(merged(receiver, head, donor), receiver.len() + k) == children(
            donor,
            k,
        ).map_values(|slot: int| slot + receiver.len()),
{
    let m = merged(receiver, head, donor);
    let offset = receiver.len() as int;
    let up = |slot: int| slot + receiver.len();
    assert(m[offset + k] == merged_slot(receiver, head, donor, offset + k));
    assert(slot_is_linked(donor, k));
    match donor[k].first_child {
        Some(c) => {
            lemma_merged_run_in_donor(receiver, head, donor, c.index as int);
        },
        None => {
            assert(children(m, offset + k) =~= children(donor, k).map_values(up));
        },
    }
}

} // verus!
