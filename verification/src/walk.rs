//! The walk of a document parent first, and the text that shows the tree
//! line by line.

use vstd::prelude::*;
use vstd::string::StringExecFns;
use crate::dom::Dom;
use crate::id_tree::{slot_is_linked, Node, NodeId};
use crate::node::NodeDataView;
use crate::preorder::{preorder, preorder_chain, preorder_from};

verus! {

/// The slots of `s` as mathematical integers.
pub open spec fn as_ints(s: Seq<usize>) -> Seq<int> {
    Seq::new(s.len(), |k: int| s[k] as int)
}

/// What is left of a walk when the slots of `stack` wait to be walked, the
/// last one first: the subtree of each and of the siblings behind it.
pub open spec fn remaining(nodes: Seq<Node>, stack: Seq<usize>) -> Seq<int>
    decreases stack.len(),
{
    if stack.len() == 0 {
        Seq::empty()
    } else {
        preorder_chain(nodes, stack.last() as int) + remaining(nodes, stack.drop_last())
    }
}

/// How many ancestors slot `i` has.
pub open spec fn depth(nodes: Seq<Node>, i: int) -> nat
    decreases i,
{
    if 0 <= i < nodes.len() {
        match nodes[i].parent {
            Some(p) => if p.index < i {
                depth(nodes, p.index as int) + 1
            } else {
                0
            },
            None => 0,
        }
    } else {
        0
    }
}

/// `depth` times four spaces.
pub open spec fn indent(depth: nat) -> Seq<char>
    decreases depth,
{
    if depth == 0 {
        Seq::empty()
    } else {
        indent((depth - 1) as nat) + seq![' ', ' ', ' ', ' ']
    }
}

/// The line of slot `i`: four spaces for each of its ancestors, the node as
/// text, and a line feed.
pub open spec fn line(nodes: Seq<Node>, data: Seq<NodeDataView>, i: int) -> Seq<char> {
    indent(depth(nodes, i)) + data[i].display() + seq!['\n']
}

/// The lines of the slots of `order`, one after the other.
pub open spec fn lines(nodes: Seq<Node>, data: Seq<NodeDataView>, order: Seq<int>) -> Seq<char>
    decreases order.len(),
{
    if order.len() == 0 {
        Seq::empty()
    } else {
        lines(nodes, data, order.drop_last()) + line(nodes, data, order.last())
    }
}

impl Dom {
    /// The slots of the document in the order in which the tree is walked
    /// parent first, the children of a node in the order of their links.
    pub fn preorder_slots(&self) -> (order: Vec<usize>)
        requires
            self.wf(),
        ensures
            as_ints(order@) == preorder(self.layout()),
            forall|k: int| 0 <= k < order@.len() ==> (#[trigger] order@[k]) < self.layout().len(),
    {
        let ghost nodes = self.layout();
        let mut order: Vec<usize> = Vec::new();
        let mut stack: Vec<usize> = Vec::new();
        stack.push(0);
        proof {
            assert(slot_is_linked(nodes, 0));
            assert(stack@.drop_last() =~= Seq::<usize>::empty());
            assert(remaining(nodes, Seq::<usize>::empty()) =~= Seq::<int>::empty());
            assert(remaining(nodes, stack@) =~= preorder_chain(nodes, 0));
            assert(preorder_chain(nodes, 0) =~= preorder_from(nodes, 0));
            assert(as_ints(order@) + remaining(nodes, stack@) =~= preorder(nodes));
        }
        while stack.len() > 0
            invariant
                self.wf(),
                nodes == self.layout(),
                forall|k: int| 0 <= k < stack@.len() ==> (#[trigger] stack@[k]) < nodes.len(),
                forall|k: int| 0 <= k < order@.len() ==> (#[trigger] order@[k]) < nodes.len(),
                as_ints(order@) + remaining(nodes, stack@) == preorder(nodes),
            decreases remaining(nodes, stack@).len(),
        {
            let ghost before = stack@;
            let ghost done = as_ints(order@);
            let current = stack.pop().unwrap();
            let ghost rest = stack@;
            let node = self.arena.node_layout.node(NodeId::new(current));
            proof {
                assert(before.last() == current);
                assert(before.drop_last() =~= rest);
                assert(slot_is_linked(nodes, current as int));
            }
            let ghost behind: Seq<int> = match node.next_sibling {
                Some(s) => preorder_chain(nodes, s.index as int),
                None => Seq::empty(),
            };
            let ghost below: Seq<int> = match node.first_child {
                Some(c) => preorder_chain(nodes, c.index as int),
                None => Seq::empty(),
            };
            proof {
                assert(*node == nodes[current as int]);
                if let Some(c) = node.first_child {
                    assert(slot_is_linked(nodes, c.index as int));
                }
                assert(preorder_from(nodes, current as int) =~= seq![current as int] + below);
                assert(preorder_chain(nodes, current as int) =~= preorder_from(nodes, current as int)
                    + behind);
                assert(remaining(nodes, before) =~= preorder_chain(nodes, current as int)
                    + remaining(nodes, rest));
            }
            if let Some(sibling) = node.next_sibling {
                stack.push(sibling.index);
                proof {
                    assert(stack@.drop_last() =~= rest);
                }
            }
            let ghost middle = stack@;
            proof {
                assert(remaining(nodes, middle) =~= behind + remaining(nodes, rest));
            }
            if let Some(child) = node.first_child {
                stack.push(child.index);
                proof {
                    assert(stack@.drop_last() =~= middle);
                }
            }
            proof {
                assert(remaining(nodes, stack@) =~= below + (behind + remaining(nodes, rest)));
            }
            order.push(current);
            proof {
                assert(as_ints(order@) =~= done + seq![current as int]);
                assert(as_ints(order@) + remaining(nodes, stack@) =~= done + remaining(nodes, before));
                assert(remaining(nodes, before).len() == remaining(nodes, stack@).len() + 1);
            }
        }
        proof {
            assert(remaining(nodes, stack@) =~= Seq::<int>::empty());
            assert(as_ints(order@) + remaining(nodes, stack@) =~= as_ints(order@));
        }
        order
    }

    /// How many ancestors the node at `id` has.
    pub fn depth_of(&self, id: NodeId) -> (d: usize)
        requires
            self.wf(),
            id.index < self.layout().len(),
        ensures
            d == depth(self.layout(), id.index as int),
    {
        let ghost nodes = self.layout();
        let mut current = id.index;
        let mut d: usize = 0;
        loop
            invariant
                self.wf(),
                nodes == self.layout(),
                id.index < nodes.len(),
                current <= id.index,
                d + current <= id.index,
                depth(nodes, id.index as int) == d + depth(nodes, current as int),
            decreases current,
        {
            proof {
                assert(slot_is_linked(nodes, current as int));
            }
            match self.arena.node_layout.node(NodeId::new(current)).parent {
                Some(parent) => {
                    d += 1;
                    current = parent.index;
                },
                None => {
                    return d;
                },
            }
        }
    }

    /// The document as text, one line for each node, in the order in which
    /// the tree is walked parent first; each line is indented by four spaces
    /// for each ancestor of its node.
    pub fn print_tree(&self) -> (text: String)
        requires
            self.wf(),
        ensures
            text@ == lines(self.layout(), self.data(), preorder(self.layout())),
    {
        proof {
            reveal_strlit("    ");
            reveal_strlit("\n");
        }
        let order = self.preorder_slots();
        let ghost nodes = self.layout();
        let ghost data = self.data();
        let ghost walk = as_ints(order@);
        let mut text = String::new();
        let mut k: usize = 0;
        while k < order.len()
            invariant
                self.wf(),
                nodes == self.layout(),
                data == self.data(),
                walk == as_ints(order@),
                0 <= k <= order@.len(),
                forall|j: int| 0 <= j < order@.len() ==> (#[trigger] order@[j]) < nodes.len(),
                "    "@ == seq![' ', ' ', ' ', ' '],
                "\n"@ == seq!['\n'],
                text@ == lines(nodes, data, walk.take(k as int)),
            decreases order@.len() - k,
        {
            let slot = order[k];
            let ghost start = text@;
            let d = self.depth_of(NodeId::new(slot));
            let mut i: usize = 0;
            while i < d
                invariant
                    0 <= i <= d,
                    "    "@ == seq![' ', ' ', ' ', ' '],
                    text@ == start + indent(i as nat),
                decreases d - i,
            {
                text.append("    ");
                proof {
                    assert(text@ =~= start + indent((i + 1) as nat));
                }
                i += 1;
            }
            let node_text = self.arena.node_data.data(NodeId::new(slot)).to_string();
            text.append(node_text.as_str());
            text.append("\n");
            proof {
                assert(walk.take(k + 1).drop_last() =~= walk.take(k as int));
                assert(walk.take(k + 1).last() == slot as int);
                assert(text@ =~= start + line(nodes, data, slot as int));
            }
            k += 1;
        }
        proof {
            assert(walk.take(k as int) =~= walk);
        }
        text
    }
}

} // verus!
