//! Flat, append-only arena that stores a tree as two parallel sequences:
//! the topology (`NodeHierarchy`) and the payload (`NodeDataContainer`).
//! Both are addressed by the same `NodeId`.

use vstd::prelude::*;

verus! {

/// Index of one slot of an arena. Indices are zero-based and local to the arena.
#[derive(Debug, Copy, Clone, PartialEq, Eq, Structural, Hash, PartialOrd, Ord)]
pub struct NodeId {
    pub index: usize,
}

impl NodeId {
    /// The identifier of slot `value`.
    pub fn new(value: usize) -> (id: NodeId)
        ensures
            id.index == value,
    {
        NodeId { index: value }
    }

    /// The slot that this identifier addresses.
    pub fn index(&self) -> (i: usize)
        ensures
            i == self.index,
    {
        self.index
    }
}

/// Topology of one slot: links to the parent, to both siblings and to the
/// first and last child.
#[derive(Debug, Copy, Clone, PartialEq, Eq, Structural, Hash)]
pub struct Node {
    pub parent: Option<NodeId>,
    pub previous_sibling: Option<NodeId>,
    pub next_sibling: Option<NodeId>,
    pub first_child: Option<NodeId>,
    pub last_child: Option<NodeId>,
}

impl Node {
    /// A slot without any link.
    pub open spec fn unlinked() -> Node {
        Node {
            parent: None,
            previous_sibling: None,
            next_sibling: None,
            first_child: None,
            last_child: None,
        }
    }

    /// A slot without any link.
    pub fn new() -> (node: Node)
        ensures
            node == Node::unlinked(),
    {
        Node {
            parent: None,
            previous_sibling: None,
            next_sibling: None,
            first_child: None,
            last_child: None,
        }
    }
}

/// A link that points at slot `i`.
pub open spec fn link(i: int) -> Option<NodeId>
    recommends
        0 <= i <= usize::MAX,
{
    Some(NodeId { index: i as usize })
}

/// Whether a link is absent or points into an arena of `len` slots.
pub open spec fn link_in_range(l: Option<NodeId>, len: int) -> bool {
    l matches Some(id) ==> id.index < len
}

/// Whether every link of `node` is absent or points into an arena of `len` slots.
pub open spec fn node_in_range(node: Node, len: int) -> bool {
    &&& link_in_range(node.parent, len)
    &&& link_in_range(node.previous_sibling, len)
    &&& link_in_range(node.next_sibling, len)
    &&& link_in_range(node.first_child, len)
    &&& link_in_range(node.last_child, len)
}

/// What must hold of slot `i` in a tree: its links stay inside the arena,
/// only slot 0 is without a parent, a parent comes before its children and
/// a sibling before its next sibling, and every link is answered by the
/// link in the opposite direction.
pub open spec fn slot_is_linked(nodes: Seq<Node>, i: int) -> bool
    recommends
        0 <= i < nodes.len(),
{
    let x = nodes[i];
    &&& node_in_range(x, nodes.len() as int)
    &&& (x.parent is None <==> i == 0)
    &&& (x.parent matches Some(p) ==> p.index < i)
    &&& (x.next_sibling matches Some(n) ==> i < n.index
        && nodes[n.index as int].previous_sibling == link(i)
        && nodes[n.index as int].parent == x.parent)
    &&& (x.previous_sibling matches Some(p) ==> p.index < i
        && nodes[p.index as int].next_sibling == link(i)
        && nodes[p.index as int].parent == x.parent)
    &&& (x.first_child matches Some(c) ==> nodes[c.index as int].parent == link(i)
        && nodes[c.index as int].previous_sibling is None)
    &&& (x.last_child matches Some(c) ==> nodes[c.index as int].parent == link(i)
        && nodes[c.index as int].next_sibling is None)
    &&& (x.first_child is None <==> x.last_child is None)
    &&& (x.parent matches Some(p) ==> (x.previous_sibling is None
        ==> nodes[p.index as int].first_child == link(i)))
    &&& (x.parent matches Some(p) ==> (x.next_sibling is None ==> nodes[p.index as int].last_child
        == link(i)))
    &&& (i == 0 ==> x.previous_sibling is None && x.next_sibling is None)
}

/// Whether `nodes` is the topology of one tree rooted at slot 0: there is at
/// least one slot and no more than an index can address, and every slot is
/// linked as a slot of a tree must be.
pub open spec fn is_tree(nodes: Seq<Node>) -> bool {
    &&& 1 <= nodes.len() <= usize::MAX
    &&& forall|i: int| 0 <= i < nodes.len() ==> #[trigger] slot_is_linked(nodes, i)
}

/// The tree topology, one `Node` per slot.
#[derive(Debug, PartialEq, Eq)]
pub struct NodeHierarchy {
    pub internal: Vec<Node>,
}

impl View for NodeHierarchy {
    type V = Seq<Node>;

    open spec fn view(&self) -> Seq<Node> {
        self.internal@
    }
}

impl NodeHierarchy {
    /// The topology with the given slots.
    pub fn new(data: Vec<Node>) -> (hierarchy: NodeHierarchy)
        ensures
            hierarchy@ == data@,
    {
        NodeHierarchy { internal: data }
    }

    /// Number of slots.
    pub fn len(&self) -> (n: usize)
        ensures
            n == self@.len(),
    {
        self.internal.len()
    }

    /// The slot at `id`, or `None` if `id` is out of range.
    pub fn get(&self, id: NodeId) -> (node: Option<&Node>)
        ensures
            id.index < self@.len() ==> node == Some(&self@[id.index as int]),
            id.index >= self@.len() ==> node is None,
    {
        if id.index < self.internal.len() {
            Some(&self.internal[id.index])
        } else {
            None
        }
    }

    /// The slot at `id`, which must be in range.
    pub fn node(&self, id: NodeId) -> (node: &Node)
        requires
            id.index < self@.len(),
        ensures
            *node == self@[id.index as int],
    {
        &self.internal[id.index]
    }
}

/// The tree payload, one value per slot.
#[derive(Debug, PartialEq, Eq)]
pub struct NodeDataContainer<T> {
    pub internal: Vec<T>,
}

impl<T> View for NodeDataContainer<T> {
    type V = Seq<T>;

    open spec fn view(&self) -> Seq<T> {
        self.internal@
    }
}

impl<T> NodeDataContainer<T> {
    /// The payload with the given values.
    pub fn new(data: Vec<T>) -> (container: NodeDataContainer<T>)
        ensures
            container@ == data@,
    {
        NodeDataContainer { internal: data }
    }

    /// Number of slots.
    pub fn len(&self) -> (n: usize)
        ensures
            n == self@.len(),
    {
        self.internal.len()
    }

    /// The payload at `id`, or `None` if `id` is out of range.
    pub fn get(&self, id: NodeId) -> (data: Option<&T>)
        ensures
            id.index < self@.len() ==> data == Some(&self@[id.index as int]),
            id.index >= self@.len() ==> data is None,
    {
        if id.index < self.internal.len() {
            Some(&self.internal[id.index])
        } else {
            None
        }
    }

    /// The payload at `id`, which must be in range.
    pub fn data(&self, id: NodeId) -> (data: &T)
        requires
            id.index < self@.len(),
        ensures
            *data == self@[id.index as int],
    {
        &self.internal[id.index]
    }
}

/// Topology and payload of a tree, slot by slot.
#[derive(Debug, PartialEq, Eq)]
pub struct Arena<T> {
    pub node_layout: NodeHierarchy,
    pub node_data: NodeDataContainer<T>,
}

impl<T> Arena<T> {
    /// Whether topology and payload have the same number of slots.
    pub open spec fn wf(&self) -> bool {
        self.node_layout@.len() == self.node_data@.len()
    }

    /// An arena without slots.
    pub fn new() -> (arena: Arena<T>)
        ensures
            arena.wf(),
            arena.node_layout@ == Seq::<Node>::empty(),
            arena.node_data@ == Seq::<T>::empty(),
    {
        Arena {
            node_layout: NodeHierarchy { internal: Vec::new() },
            node_data: NodeDataContainer { internal: Vec::new() },
        }
    }

    /// An arena without slots, with room for `cap` of them if that much
    /// memory can be had: the capacity is a hint, and asking for more than
    /// there is leaves the arena without reserved room.
    pub fn with_capacity(cap: usize) -> (arena: Arena<T>)
        ensures
            arena.wf(),
            arena.node_layout@ == Seq::<Node>::empty(),
            arena.node_data@ == Seq::<T>::empty(),
    {
        let mut node_layout: Vec<Node> = Vec::new();
        let mut node_data: Vec<T> = Vec::new();
        let _ = node_layout.try_reserve(cap);
        let _ = node_data.try_reserve(cap);
        Arena {
            node_layout: NodeHierarchy { internal: node_layout },
            node_data: NodeDataContainer { internal: node_data },
        }
    }

    /// Number of slots.
    pub fn len(&self) -> (n: usize)
        ensures
            n == self.node_layout@.len(),
    {
        self.node_layout.len()
    }

    /// Appends a slot that holds `data` and has no links, and returns its
    /// identifier: the number of slots before the call.
    pub fn new_node(&mut self, data: T) -> (id: NodeId)
        requires
            old(self).wf(),
        ensures
            final(self).wf(),
            id.index == old(self).node_layout@.len(),
            final(self).node_layout@ == old(self).node_layout@.push(Node::unlinked()),
            final(self).node_data@ == old(self).node_data@.push(data),
    {
        let next_index = self.node_layout.internal.len();
        self.node_layout.internal.push(Node::new());
        self.node_data.internal.push(data);
        NodeId::new(next_index)
    }

    /// Moves all slots of `other` behind those of `self`, as they are: links
    /// are not rewritten. `other` is left without slots.
    pub fn append_arena(&mut self, other: &mut Arena<T>)
        ensures
            final(self).node_layout@ == old(self).node_layout@ + old(other).node_layout@,
            final(self).node_data@ == old(self).node_data@ + old(other).node_data@,
            final(other).node_layout@ == Seq::<Node>::empty(),
            final(other).node_data@ == Seq::<T>::empty(),
    {
        self.node_layout.internal.append(&mut other.node_layout.internal);
        self.node_data.internal.append(&mut other.node_data.internal);
    }
}

} // verus!
