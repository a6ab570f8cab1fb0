//! The document: an arena of nodes with a root and an insertion point, built
//! by chained calls and by merging independently built documents.

use vstd::prelude::*;
use vstd::std_specs::cmp::PartialEqSpecImpl;
use crate::id_tree::{is_tree, link_in_range, slot_is_linked, link, Arena, Node, NodeDataContainer,
    NodeHierarchy, NodeId};
use crate::preorder::laid_out_in_preorder;
use crate::splice::{lemma_merged_is_in_preorder, lemma_merged_is_tree, lemma_star_is_in_preorder,
    merged, merged_slot, star};
use crate::events::{EventFilter, TabIndex};
use crate::node::{Callback, CssProperty, DefaultCallbackId, GlTextureCallback, IFrameCallback,
    ImageId, NodeData, NodeDataView, NodeType, NodeTypeView, StackCheckedPointer, TextId, payloads};

verus! {

/// The document model, similar to HTML: a tree of nodes that is only ever
/// added to.
#[derive(Debug)]
pub struct Dom {
    pub arena: Arena<NodeData>,
    pub root: NodeId,
    pub head: NodeId,
}

/// The topology after the documents `donors` were spliced, one after the
/// other, under slot 0 of `base`. A document without nodes adds nothing.
pub open spec fn merged_all(base: Seq<Node>, donors: Seq<Dom>) -> Seq<Node>
    decreases donors.len(),
{
    if donors.len() == 0 {
        base
    } else {
        let before = merged_all(base, donors.drop_last());
        if donors.last().is_empty() {
            before
        } else {
            merged(before, 0, donors.last().layout())
        }
    }
}

/// The payloads of the documents `donors`, one document after the other.
pub open spec fn joined_data(donors: Seq<Dom>) -> Seq<NodeDataView>
    decreases donors.len(),
{
    if donors.len() == 0 {
        Seq::empty()
    } else {
        joined_data(donors.drop_last()) + donors.last().data()
    }
}

/// The root of a document has no parent and no siblings.
pub proof fn lemma_root_is_alone(dom: Dom)
    requires
        dom.wf(),
    ensures
        dom.layout()[dom.root.index as int].parent is None,
        dom.layout()[dom.root.index as int].previous_sibling is None,
        dom.layout()[dom.root.index as int].next_sibling is None,
{
    assert(slot_is_linked(dom.layout(), 0));
}

impl Dom {
    /// The topology of the document, slot by slot.
    pub open spec fn layout(&self) -> Seq<Node> {
        self.arena.node_layout@
    }

    /// The payloads of the document, slot by slot.
    pub open spec fn data(&self) -> Seq<NodeDataView> {
        payloads(self.arena.node_data@)
    }

    /// Whether the document has no node at all.
    pub open spec fn is_empty(&self) -> bool {
        self.arena.node_layout@.len() == 0 && self.arena.node_data@.len() == 0
    }

    /// Whether this is a valid document: one tree rooted at slot 0, a
    /// payload for every slot, and an insertion point inside the arena.
    pub open spec fn wf(&self) -> bool {
        &&& self.arena.wf()
        &&& is_tree(self.arena.node_layout@)
        &&& self.root.index == 0
        &&& self.head.index < self.arena.node_layout@.len()
    }

    /// Whether the document is stored parent first, so that going through
    /// its slots in order walks the tree parent first. The documents that
    /// the builder functions make are, as long as the insertion point is
    /// the root.
    pub open spec fn in_preorder(&self) -> bool {
        laid_out_in_preorder(self.layout())
    }

    /// Returns the number of nodes in this document.
    pub fn len(&self) -> (n: usize)
        ensures
            n == self.layout().len(),
    {
        self.arena.len()
    }

    /// Creates a document that has one node, of kind `node_type`.
    pub fn new(node_type: NodeType) -> (dom: Dom)
        ensures
            dom.wf(),
            dom.in_preorder(),
            dom.root.index == 0,
            dom.head.index == 0,
            dom.layout() == seq![Node::unlinked()],
            dom.data() == seq![NodeDataView::bare(node_type@)],
    {
        Dom::with_capacity(node_type, 0)
    }

    /// Creates a document that has one node, of kind `node_type`, with space
    /// reserved for `cap` more nodes.
    pub fn with_capacity(node_type: NodeType, cap: usize) -> (dom: Dom)
        ensures
            dom.wf(),
            dom.in_preorder(),
            dom.root.index == 0,
            dom.head.index == 0,
            dom.layout() == seq![Node::unlinked()],
            dom.data() == seq![NodeDataView::bare(node_type@)],
    {
        let mut arena = Arena::with_capacity(cap.saturating_add(1));
        let root = arena.new_node(NodeData::new(node_type));
        let dom = Dom { arena: arena, root: root, head: root };
        proof {
            assert(dom.layout() =~= seq![Node::unlinked()]);
            assert(dom.data() =~= seq![NodeDataView::bare(node_type@)]);
            assert(dom.layout() =~= star(0));
            lemma_star_is_in_preorder(0);
        }
        dom
    }

    /// Adds a child document to the current document: `child` is spliced
    /// under the insertion point, behind the children that are already there.
    ///
    /// An empty `child` changes nothing, and an empty document is replaced
    /// by `child`.
    pub fn add_child(&mut self, child: Dom)
        requires
            old(self).is_empty() || old(self).wf(),
            child.is_empty() || child.wf(),
        ensures
            child.is_empty() ==> *final(self) == *old(self),
            !child.is_empty() && old(self).is_empty() ==> *final(self) == child,
            !child.is_empty() && !old(self).is_empty() ==> {
                &&& final(self).wf()
                &&& final(self).root == old(self).root
                &&& final(self).head == old(self).head
                &&& final(self).layout() == merged(
                    old(self).layout(),
                    old(self).head.index as int,
                    child.layout(),
                )
                &&& final(self).arena.node_data@ == old(self).arena.node_data@
                    + child.arena.node_data@
                &&& final(self).data() == old(self).data() + child.data()
                &&& old(self).in_preorder() && old(self).head.index == 0 && child.in_preorder()
                    ==> final(self).in_preorder()
            },
            final(self).layout().len() == old(self).layout().len() + child.layout().len(),
    {
        let mut child = child;
        let self_len = self.arena.len();
        let child_len = child.arena.len();

        if child_len == 0 {
            // No nodes to append, nothing to do
            return;
        }
        if self_len == 0 {
            // Self has no nodes, therefore the child nodes replace it
            *self = child;
            return;
        }
        let ghost receiver = self.arena.node_layout@;
        let ghost donor = child.arena.node_layout@;
        let ghost donor_data = child.arena.node_data@;
        let ghost target = merged(receiver, self.head.index as int, donor);
        let head = self.head;
        let head_last_child = self.arena.node_layout.internal[head.index].last_child;
        proof {
            assert(slot_is_linked(receiver, head.index as int));
            assert(slot_is_linked(donor, 0));
        }

        // The donor's slots land at `self_len..self_len + child_len`
        self.arena.append_arena(&mut child.arena);
        let total = self.arena.len();
        proof {
            assert(self.data() =~= old(self).data() + payloads(donor_data));
            lemma_merged_is_tree(receiver, head.index as int, donor);
            if laid_out_in_preorder(receiver) && head.index == 0 && laid_out_in_preorder(donor) {
                lemma_merged_is_in_preorder(receiver, donor);
            }
        }

        let mut last_sibling: Option<NodeId> = None;
        let mut node_id: usize = 0;
        while node_id < child_len
            invariant
                is_tree(receiver),
                is_tree(donor),
                receiver.len() == self_len,
                donor.len() == child_len,
                self_len > 0,
                child_len > 0,
                total == self_len + child_len,
                head.index < self_len,
                head_last_child == receiver[head.index as int].last_child,
                target == merged(receiver, head.index as int, donor),
                0 <= node_id <= child_len,
                self.arena.node_layout@.len() == total,
                self.arena.node_data@ == old(self).arena.node_data@ + donor_data,
                self.head == head,
                link_in_range(head_last_child, self_len as int),
                self.root == old(self).root,
                last_sibling == (if node_id > 0 { link(0) } else { None }),
                forall|j: int| 0 <= j < self_len ==> #[trigger] self.arena.node_layout@[j] == (
                    if node_id > 0 && head_last_child == link(j) {
                        Node { next_sibling: link(self_len as int), ..receiver[j] }
                    } else {
                        receiver[j]
                    }),
                forall|j: int| self_len <= j < self_len + node_id ==>
                    #[trigger] self.arena.node_layout@[j] == target[j],
                forall|j: int| self_len + node_id <= j < total ==>
                    #[trigger] self.arena.node_layout@[j] == donor[j - self_len],
            decreases child_len - node_id,
        {
            let slot = self_len + node_id;
            let mut node: Node = self.arena.node_layout.internal[slot];
            proof {
                assert(node == donor[node_id as int]);
                assert(slot_is_linked(donor, node_id as int));
                assert(target[slot as int] == merged_slot(receiver, head.index as int, donor, slot as int));
            }

            // The order of these blocks is important

            match node.previous_sibling {
                Some(previous_sibling) => {
                    // Some(previous_sibling): move it up by the current arena length
                    node.previous_sibling = Some(NodeId::new(previous_sibling.index + self_len));
                },
                None => {
                    // None: the current head's last child is the new previous sibling
                    if head_last_child.is_some() && node.parent.is_none() {
                        node.previous_sibling = head_last_child;
                        let last = head_last_child.unwrap();
                        let mut last_node: Node = self.arena.node_layout.internal[last.index];
                        last_node.next_sibling = Some(NodeId::new(slot));
                        self.arena.node_layout.internal[last.index] = last_node;
                    }
                },
            }

            match node.parent {
                Some(parent) => {
                    node.parent = Some(NodeId::new(parent.index + self_len));
                },
                None => {
                    // Have we encountered the last root item?
                    if node.next_sibling.is_none() {
                        last_sibling = Some(NodeId::new(node_id));
                    }
                    node.parent = Some(head);
                },
            }

            if let Some(next_sibling) = node.next_sibling {
                node.next_sibling = Some(NodeId::new(next_sibling.index + self_len));
            }
            if let Some(first_child) = node.first_child {
                node.first_child = Some(NodeId::new(first_child.index + self_len));
            }
            if let Some(last_child) = node.last_child {
                node.last_child = Some(NodeId::new(last_child.index + self_len));
            }

            self.arena.node_layout.internal[slot] = node;
            node_id += 1;
        }

        let mut head_node: Node = self.arena.node_layout.internal[head.index];
        if head_node.first_child.is_none() {
            head_node.first_child = Some(NodeId::new(self_len));
        }
        head_node.last_child = Some(NodeId::new(last_sibling.unwrap().index + self_len));
        self.arena.node_layout.internal[head.index] = head_node;

        proof {
            assert forall|j: int| 0 <= j < total implies self.arena.node_layout@[j] == target[j] by {
                assert(target[j] == merged_slot(receiver, head.index as int, donor, j));
                if j < self_len {
                    assert(slot_is_linked(receiver, j));
                }
            }
            assert(self.arena.node_layout@ =~= target);
        }
    }

    /// Builds a document from a list of nodes: a div as the root, and the
    /// nodes as its children, in the order of the list. The root is always
    /// there, so the document of an empty list has one node.
    pub fn from_iter(items: Vec<NodeData>) -> (dom: Dom)
        ensures
            dom.wf(),
            dom.in_preorder(),
            dom.root.index == 0,
            dom.head.index == 0,
            dom.layout() == star(items@.len() as int),
            dom.layout().len() == items@.len() + 1,
            dom.data() == seq![NodeDataView::bare(NodeTypeView::Div)] + payloads(items@),
    {
        let mut items = items;
        let ghost given = items@;

        // The root node is always pushed, so that this document has a node
        // even if the list is empty
        let mut node_data: Vec<NodeData> = Vec::new();
        node_data.push(NodeData::new(NodeType::Div));
        node_data.append(&mut items);

        let nodes_len = node_data.len();
        let count = nodes_len - 1;
        let ghost target = star(count as int);

        let mut node_layout: Vec<Node> = Vec::new();
        node_layout.push(Node {
            parent: None,
            previous_sibling: None,
            next_sibling: None,
            first_child: if count > 0 { Some(NodeId::new(1)) } else { None },
            last_child: if count > 0 { Some(NodeId::new(count)) } else { None },
        });

        let mut idx: usize = 0;
        while idx < count
            invariant
                0 <= idx <= count,
                count < usize::MAX,
                target == star(count as int),
                node_layout@.len() == idx + 1,
                forall|j: int| 0 <= j <= idx ==> #[trigger] node_layout@[j] == target[j],
            decreases count - idx,
        {
            let node = Node {
                parent: Some(NodeId::new(0)),
                previous_sibling: if idx == 0 { None } else { Some(NodeId::new(idx)) },
                next_sibling: if idx + 1 == count { None } else { Some(NodeId::new(idx + 2)) },
                first_child: None,
                last_child: None,
            };
            node_layout.push(node);
            idx += 1;
        }

        let dom = Dom {
            head: NodeId::new(0),
            root: NodeId::new(0),
            arena: Arena {
                node_data: NodeDataContainer::new(node_data),
                node_layout: NodeHierarchy::new(node_layout),
            },
        };
        proof {
            lemma_star_is_in_preorder(count as int);
            assert(dom.layout() =~= target);
            assert(dom.data() =~= seq![NodeDataView::bare(NodeTypeView::Div)] + payloads(given));
        }
        dom
    }

    /// The payload at the insertion point, which the builder calls change.
    pub open spec fn head_data(&self) -> NodeDataView
        recommends
            self.wf(),
    {
        self.data()[self.head.index as int]
    }

    /// Whether this document is `before` with `data` as the payload at the
    /// insertion point, and nothing else changed.
    pub open spec fn is_update_of(&self, before: Dom, data: NodeDataView) -> bool {
        &&& self.wf()
        &&& self.root == before.root
        &&& self.head == before.head
        &&& self.layout() == before.layout()
        &&& self.data() == before.data().update(before.head.index as int, data)
    }

    /// Shorthand for `Dom::new(NodeType::Div)`.
    pub fn div() -> (dom: Dom)
        ensures
            dom.wf(),
            dom.in_preorder(),
            dom.root.index == 0,
            dom.head.index == 0,
            dom.layout() == seq![Node::unlinked()],
            dom.data() == seq![NodeDataView::bare(NodeTypeView::Div)],
    {
        Dom::new(NodeType::Div)
    }

    /// Shorthand for `Dom::new(NodeType::Label(value.into()))`
    pub fn label(value: &str) -> (dom: Dom)
        ensures
            dom.wf(),
            dom.in_preorder(),
            dom.root.index == 0,
            dom.head.index == 0,
            dom.layout() == seq![Node::unlinked()],
            dom.data() == seq![NodeDataView::bare(NodeTypeView::Label(value@))],
    {
        Dom::new(NodeType::Label(value.to_owned()))
    }

    /// Shorthand for `Dom::new(NodeType::Text(text_id))`
    pub fn text_id(text_id: TextId) -> (dom: Dom)
        ensures
            dom.wf(),
            dom.in_preorder(),
            dom.root.index == 0,
            dom.head.index == 0,
            dom.layout() == seq![Node::unlinked()],
            dom.data() == seq![NodeDataView::bare(NodeTypeView::Text(text_id))],
    {
        Dom::new(NodeType::Text(text_id))
    }

    /// Shorthand for `Dom::new(NodeType::Image(image_id))`
    pub fn image(image: ImageId) -> (dom: Dom)
        ensures
            dom.wf(),
            dom.in_preorder(),
            dom.root.index == 0,
            dom.head.index == 0,
            dom.layout() == seq![Node::unlinked()],
            dom.data() == seq![NodeDataView::bare(NodeTypeView::Image(image))],
    {
        Dom::new(NodeType::Image(image))
    }

    /// Shorthand for `Dom::new(NodeType::GlTexture((callback, ptr)))`
    pub fn gl_texture(callback: GlTextureCallback, ptr: StackCheckedPointer) -> (dom: Dom)
        ensures
            dom.wf(),
            dom.in_preorder(),
            dom.root.index == 0,
            dom.head.index == 0,
            dom.layout() == seq![Node::unlinked()],
            dom.data() == seq![NodeDataView::bare(NodeTypeView::GlTexture(callback, ptr))],
    {
        Dom::new(NodeType::GlTexture((callback, ptr)))
    }

    /// Shorthand for `Dom::new(NodeType::IFrame((callback, ptr)))`
    pub fn iframe(callback: IFrameCallback, ptr: StackCheckedPointer) -> (dom: Dom)
        ensures
            dom.wf(),
            dom.in_preorder(),
            dom.root.index == 0,
            dom.head.index == 0,
            dom.layout() == seq![Node::unlinked()],
            dom.data() == seq![NodeDataView::bare(NodeTypeView::IFrame(callback, ptr))],
    {
        Dom::new(NodeType::IFrame((callback, ptr)))
    }

    /// Adds an id to the node at the insertion point.
    pub fn add_id(&mut self, id: &str)
        requires
            old(self).wf(),
        ensures
            final(self).is_update_of(
                *old(self),
                (NodeDataView { ids: old(self).head_data().ids.push(id@), ..old(self).head_data() }),
            ),
    {
        self.arena.node_data.internal[self.head.index].ids.push(id.to_owned());
        proof {
            let data = NodeDataView {
                ids: old(self).head_data().ids.push(id@),
                ..old(self).head_data()
            };
            assert(self.head_data().ids =~= data.ids);
            assert(self.data() =~= old(self).data().update(old(self).head.index as int, data));
        }
    }

    /// Adds a class to the node at the insertion point.
    pub fn add_class(&mut self, class: &str)
        requires
            old(self).wf(),
        ensures
            final(self).is_update_of(
                *old(self),
                (NodeDataView { classes: old(self).head_data().classes.push(class@), ..old(self).head_data() }),
            ),
    {
        self.arena.node_data.internal[self.head.index].classes.push(class.to_owned());
        proof {
            let data = NodeDataView { classes: old(self).head_data().classes.push(class@), ..old(self).head_data() };
            assert(self.head_data().classes =~= data.classes);
            assert(self.data() =~= old(self).data().update(old(self).head.index as int, data));
        }
    }

    /// Attaches a callback to the node at the insertion point.
    pub fn add_callback(&mut self, on: EventFilter, callback: Callback)
        requires
            old(self).wf(),
        ensures
            final(self).is_update_of(
                *old(self),
                (NodeDataView { callbacks: old(self).head_data().callbacks.push((on, callback)), ..old(self).head_data() }),
            ),
    {
        self.arena.node_data.internal[self.head.index].callbacks.push((on, callback));
        proof {
            let data = NodeDataView { callbacks: old(self).head_data().callbacks.push((on, callback)), ..old(self).head_data() };
            assert(self.head_data().callbacks =~= data.callbacks);
            assert(self.data() =~= old(self).data().update(old(self).head.index as int, data));
        }
    }

    /// Attaches a default callback to the node at the insertion point.
    pub fn add_default_callback_id(&mut self, on: EventFilter, id: DefaultCallbackId)
        requires
            old(self).wf(),
        ensures
            final(self).is_update_of(
                *old(self),
                (NodeDataView { default_callback_ids: old(self).head_data().default_callback_ids.push((on, id)), ..old(self).head_data() }),
            ),
    {
        self.arena.node_data.internal[self.head.index].default_callback_ids.push((on, id));
        proof {
            let data = NodeDataView { default_callback_ids: old(self).head_data().default_callback_ids.push((on, id)), ..old(self).head_data() };
            assert(self.head_data().default_callback_ids =~= data.default_callback_ids);
            assert(self.data() =~= old(self).data().update(old(self).head.index as int, data));
        }
    }

    /// Makes the node at the insertion point focusable, with the given tab index.
    pub fn add_tab_index(&mut self, tab_index: TabIndex)
        requires
            old(self).wf(),
        ensures
            final(self).is_update_of(
                *old(self),
                (NodeDataView { tab_index: Some(tab_index), ..old(self).head_data() }),
            ),
    {
        self.arena.node_data.internal[self.head.index].tab_index = Some(tab_index);
        proof {
            let data = NodeDataView { tab_index: Some(tab_index), ..old(self).head_data() };
            assert(self.head_data().tab_index =~= data.tab_index);
            assert(self.data() =~= old(self).data().update(old(self).head.index as int, data));
        }
    }

    /// Overrides a style property of the node at the insertion point.
    pub fn add_css_override(&mut self, override_id: &str, property: CssProperty)
        requires
            old(self).wf(),
        ensures
            final(self).is_update_of(
                *old(self),
                (NodeDataView { dynamic_css_overrides: old(self).head_data().dynamic_css_overrides.push((override_id@, property)), ..old(self).head_data() }),
            ),
    {
        self.arena.node_data.internal[self.head.index].dynamic_css_overrides.push(
            (override_id.to_owned(), property),
        );
        proof {
            let data = NodeDataView { dynamic_css_overrides: old(self).head_data().dynamic_css_overrides.push((override_id@, property)), ..old(self).head_data() };
            assert(self.head_data().dynamic_css_overrides =~= data.dynamic_css_overrides);
            assert(self.data() =~= old(self).data().update(old(self).head.index as int, data));
        }
    }

    /// Sets whether the node at the insertion point can be dragged.
    pub fn set_draggable(&mut self, draggable: bool)
        requires
            old(self).wf(),
        ensures
            final(self).is_update_of(
                *old(self),
                (NodeDataView { draggable: draggable, ..old(self).head_data() }),
            ),
    {
        self.arena.node_data.internal[self.head.index].draggable = draggable;
        proof {
            let data = NodeDataView { draggable: draggable, ..old(self).head_data() };
            assert(self.head_data().draggable =~= data.draggable);
            assert(self.data() =~= old(self).data().update(old(self).head.index as int, data));
        }
    }

    /// Same as `add_id`, but easier to use for method chaining in a builder-style pattern
    pub fn with_id(self, id: &str) -> (dom: Dom)
        requires
            self.wf(),
        ensures
            dom.is_update_of(self, (NodeDataView { ids: self.head_data().ids.push(id@), ..self.head_data() })),
    {
        let mut dom = self;
        dom.add_id(id);
        dom
    }

    /// Same as `add_class`, but easier to use for method chaining in a builder-style pattern
    pub fn with_class(self, class: &str) -> (dom: Dom)
        requires
            self.wf(),
        ensures
            dom.is_update_of(self, (NodeDataView { classes: self.head_data().classes.push(class@), ..self.head_data() })),
    {
        let mut dom = self;
        dom.add_class(class);
        dom
    }

    /// Same as `add_callback`, but easier to use for method chaining in a builder-style pattern
    pub fn with_callback(self, on: EventFilter, callback: Callback) -> (dom: Dom)
        requires
            self.wf(),
        ensures
            dom.is_update_of(self, (NodeDataView { callbacks: self.head_data().callbacks.push((on, callback)), ..self.head_data() })),
    {
        let mut dom = self;
        dom.add_callback(on, callback);
        dom
    }

    /// Same as `add_css_override`, but easier to use for method chaining in a builder-style pattern
    pub fn with_css_override(self, id: &str, property: CssProperty) -> (dom: Dom)
        requires
            self.wf(),
        ensures
            dom.is_update_of(self, (NodeDataView { dynamic_css_overrides: self.head_data().dynamic_css_overrides.push((id@, property)), ..self.head_data() })),
    {
        let mut dom = self;
        dom.add_css_override(id, property);
        dom
    }

    /// Same as `add_tab_index`, but easier to use for method chaining in a builder-style pattern
    pub fn with_tab_index(self, tab_index: TabIndex) -> (dom: Dom)
        requires
            self.wf(),
        ensures
            dom.is_update_of(self, (NodeDataView { tab_index: Some(tab_index), ..self.head_data() })),
    {
        let mut dom = self;
        dom.add_tab_index(tab_index);
        dom
    }

    /// Same as `set_draggable`, but easier to use for method chaining in a builder-style pattern
    pub fn is_draggable(self, draggable: bool) -> (dom: Dom)
        requires
            self.wf(),
        ensures
            dom.is_update_of(self, (NodeDataView { draggable: draggable, ..self.head_data() })),
    {
        let mut dom = self;
        dom.set_draggable(draggable);
        dom
    }

    /// Same as `add_child`, but easier to use for method chaining in a
    /// builder-style pattern
    pub fn with_child(self, child: Dom) -> (dom: Dom)
        requires
            self.is_empty() || self.wf(),
            child.is_empty() || child.wf(),
        ensures
            child.is_empty() ==> dom == self,
            !child.is_empty() && self.is_empty() ==> dom == child,
            !child.is_empty() && !self.is_empty() ==> {
                &&& dom.wf()
                &&& dom.root == self.root
                &&& dom.head == self.head
                &&& dom.layout() == merged(self.layout(), self.head.index as int, child.layout())
                &&& dom.arena.node_data@ == self.arena.node_data@ + child.arena.node_data@
                &&& dom.data() == self.data() + child.data()
                &&& self.in_preorder() && self.head.index == 0 && child.in_preorder()
                    ==> dom.in_preorder()
            },
            dom.layout().len() == self.layout().len() + child.layout().len(),
    {
        let mut dom = self;
        dom.add_child(child);
        dom
    }

    /// Builds a document from a list of documents: a div as the root, and
    /// the documents spliced under it, in the order of the list.
    pub fn from_children(children: Vec<Dom>) -> (dom: Dom)
        requires
            forall|i: int|
                0 <= i < children@.len() ==> (#[trigger] children@[i]).is_empty() || children@[i].wf(),
        ensures
            dom.wf(),
            dom.root.index == 0,
            dom.head.index == 0,
            dom.layout() == merged_all(seq![Node::unlinked()], children@),
            dom.data() == seq![NodeDataView::bare(NodeTypeView::Div)] + joined_data(children@),
            (forall|i: int|
                0 <= i < children@.len() ==> (#[trigger] children@[i]).is_empty()
                    || children@[i].in_preorder()) ==> dom.in_preorder(),
    {
        let mut c = Dom::new(NodeType::Div);
        let ghost base = c.layout();
        let ghost root_data = c.data();
        for child in iter: children.into_iter()
            invariant
                iter.seq() == children@,
                forall|i: int|
                    0 <= i < children@.len() ==> (#[trigger] children@[i]).is_empty()
                        || children@[i].wf(),
                c.wf(),
                c.root.index == 0,
                c.head.index == 0,
                (forall|i: int|
                    0 <= i < children@.len() ==> (#[trigger] children@[i]).is_empty()
                        || children@[i].in_preorder()) ==> c.in_preorder(),
                c.layout() == merged_all(base, children@.take(iter.index() as int)),
                c.data() == root_data + joined_data(children@.take(iter.index() as int)),
        {
            proof {
                let k = iter.index() as int;
                assert(child == children@[k]);
                assert(children@.take(k + 1).drop_last() =~= children@.take(k));
                assert(children@.take(k + 1).last() == child);
            }
            let ghost before = c.data();
            c.add_child(child);
            proof {
                if child.is_empty() {
                    assert(child.data() =~= Seq::<NodeDataView>::empty());
                    assert(c.data() =~= before + child.data());
                }
                assert(c.data() =~= root_data + (joined_data(children@.take(iter.index() as int))
                    + child.data()));
            }
        }
        proof {
            assert(children@.take(children@.len() as int) =~= children@);
        }
        c
    }

    /// Builds a document from a list of element kinds: a div as the root,
    /// and a node of each kind as its children, in the order of the list.
    pub fn from_node_types(kinds: Vec<NodeType>) -> (dom: Dom)
        ensures
            dom.wf(),
            dom.in_preorder(),
            dom.root.index == 0,
            dom.head.index == 0,
            dom.layout() == star(kinds@.len() as int),
            dom.data() == seq![NodeDataView::bare(NodeTypeView::Div)] + Seq::new(
                kinds@.len(),
                |i: int| NodeDataView::bare(kinds@[i]@),
            ),
    {
        let mut items: Vec<NodeData> = Vec::new();
        for kind in iter: kinds.into_iter()
            invariant
                iter.seq() == kinds@,
                items@.len() == iter.index(),
                forall|j: int|
                    0 <= j < items@.len() ==> (#[trigger] items@[j])@ == NodeDataView::bare(
                        kinds@[j]@,
                    ),
        {
            items.push(NodeData::new(kind));
        }
        let ghost expected = Seq::new(kinds@.len(), |i: int| NodeDataView::bare(kinds@[i]@));
        assert(payloads(items@) =~= expected);
        Dom::from_iter(items)
    }
}

/// Whether link `l` is the link to slot `i`.
fn links_to(l: Option<NodeId>, i: usize) -> (yes: bool)
    ensures
        yes == (l == link(i as int)),
{
    match l {
        Some(id) => id.index == i,
        None => false,
    }
}

/// Whether link `l` is absent or points into an arena of `len` slots.
fn in_range(l: Option<NodeId>, len: usize) -> (yes: bool)
    ensures
        yes == link_in_range(l, len as int),
{
    match l {
        Some(id) => id.index < len,
        None => true,
    }
}

/// Whether two links are the same.
fn same_link(a: Option<NodeId>, b: Option<NodeId>) -> (yes: bool)
    ensures
        yes == (a == b),
{
    match (a, b) {
        (Some(x), Some(y)) => x.index == y.index,
        (None, None) => true,
        _ => false,
    }
}

/// Whether slot `i` of `nodes` is linked as a slot of a tree must be.
fn slot_is_valid(nodes: &Vec<Node>, i: usize) -> (valid: bool)
    requires
        i < nodes@.len(),
    ensures
        valid == slot_is_linked(nodes@, i as int),
{
    let len = nodes.len();
    let x = nodes[i];
    if !(in_range(x.parent, len) && in_range(x.previous_sibling, len) && in_range(
        x.next_sibling,
        len,
    ) && in_range(x.first_child, len) && in_range(x.last_child, len)) {
        return false;
    }
    if x.parent.is_none() != (i == 0) {
        return false;
    }
    if i == 0 && !(x.previous_sibling.is_none() && x.next_sibling.is_none()) {
        return false;
    }
    if x.first_child.is_none() != x.last_child.is_none() {
        return false;
    }
    if let Some(p) = x.parent {
        if !(p.index < i) {
            return false;
        }
        if x.previous_sibling.is_none() && !links_to(nodes[p.index].first_child, i) {
            return false;
        }
        if x.next_sibling.is_none() && !links_to(nodes[p.index].last_child, i) {
            return false;
        }
    }
    if let Some(n) = x.next_sibling {
        if !(i < n.index && links_to(nodes[n.index].previous_sibling, i) && same_link(
            nodes[n.index].parent,
            x.parent,
        )) {
            return false;
        }
    }
    if let Some(p) = x.previous_sibling {
        if !(p.index < i && links_to(nodes[p.index].next_sibling, i) && same_link(
            nodes[p.index].parent,
            x.parent,
        )) {
            return false;
        }
    }
    if let Some(c) = x.first_child {
        if !(links_to(nodes[c.index].parent, i) && nodes[c.index].previous_sibling.is_none()) {
            return false;
        }
    }
    if let Some(c) = x.last_child {
        if !(links_to(nodes[c.index].parent, i) && nodes[c.index].next_sibling.is_none()) {
            return false;
        }
    }
    true
}

impl Dom {
    /// Checks whether this is a valid document: one tree rooted at slot 0,
    /// a payload for every slot, and an insertion point inside the arena.
    pub fn is_valid(&self) -> (valid: bool)
        ensures
            valid == self.wf(),
    {
        let len = self.arena.node_layout.internal.len();
        if len != self.arena.node_data.internal.len() || len == 0 || self.root.index != 0
            || self.head.index >= len {
            return false;
        }
        let mut i: usize = 0;
        while i < len
            invariant
                0 <= i <= len,
                len == self.layout().len(),
                forall|j: int| 0 <= j < i ==> #[trigger] slot_is_linked(self.layout(), j),
            decreases len - i,
        {
            if !slot_is_valid(&self.arena.node_layout.internal, i) {
                return false;
            }
            i += 1;
        }
        true
    }
}

impl PartialEqSpecImpl for Dom {
    open spec fn obeys_eq_spec() -> bool {
        true
    }

    open spec fn eq_spec(&self, other: &Dom) -> bool {
        &&& self.root == other.root
        &&& self.head == other.head
        &&& self.layout() == other.layout()
        &&& self.data() == other.data()
    }
}

/// Two documents are equal if they have the same root and insertion point,
/// the same links and equal payloads, slot by slot.
impl PartialEq for Dom {
    fn eq(&self, other: &Dom) -> (equal: bool) {
        if !(self.root == other.root && self.head == other.head) {
            return false;
        }
        if self.arena.node_layout.internal.len() != other.arena.node_layout.internal.len() {
            return false;
        }
        let mut i: usize = 0;
        while i < self.arena.node_layout.internal.len()
            invariant
                0 <= i <= self.layout().len(),
                self.layout().len() == other.layout().len(),
                forall|j: int| 0 <= j < i ==> self.layout()[j] == other.layout()[j],
            decreases self.layout().len() - i,
        {
            if self.arena.node_layout.internal[i] != other.arena.node_layout.internal[i] {
                return false;
            }
            i += 1;
        }
        assert(self.layout() =~= other.layout());
        if self.arena.node_data.internal.len() != other.arena.node_data.internal.len() {
            assert(self.data().len() != other.data().len());
            return false;
        }
        let mut i: usize = 0;
        while i < self.arena.node_data.internal.len()
            invariant
                0 <= i <= self.data().len(),
                self.data().len() == other.data().len(),
                self.layout() == other.layout(),
                forall|j: int| 0 <= j < i ==> self.data()[j] == other.data()[j],
            decreases self.data().len() - i,
        {
            if self.arena.node_data.internal[i] != other.arena.node_data.internal[i] {
                assert(self.data()[i as int] != other.data()[i as int]);
                return false;
            }
            i += 1;
        }
        assert(self.data() =~= other.data());
        true
    }
}

impl Eq for Dom {

}

impl Clone for Dom {
    fn clone(&self) -> (copy: Dom)
        ensures
            copy.root == self.root,
            copy.head == self.head,
            copy.layout() == self.layout(),
            copy.data() == self.data(),
    {
        let layout = &self.arena.node_layout.internal;
        let mut node_layout: Vec<Node> = Vec::new();
        let mut i: usize = 0;
        while i < layout.len()
            invariant
                0 <= i <= layout@.len(),
                node_layout@ == layout@.take(i as int),
            decreases layout@.len() - i,
        {
            node_layout.push(layout[i]);
            assert(layout@.take(i + 1) =~= layout@.take(i as int).push(layout@[i as int]));
            i += 1;
        }
        assert(layout@.take(i as int) =~= layout@);
        let data = &self.arena.node_data.internal;
        let mut node_data: Vec<NodeData> = Vec::new();
        let mut i: usize = 0;
        while i < data.len()
            invariant
                0 <= i <= data@.len(),
                node_data@.len() == i,
                forall|j: int| 0 <= j < i ==> (#[trigger] node_data@[j])@ == data@[j]@,
            decreases data@.len() - i,
        {
            node_data.push(data[i].clone());
            i += 1;
        }
        assert(payloads(node_data@) =~= payloads(data@));
        Dom {
            arena: Arena {
                node_layout: NodeHierarchy::new(node_layout),
                node_data: NodeDataContainer::new(node_data),
            },
            root: self.root,
            head: self.head,
        }
    }
}

} // verus!
