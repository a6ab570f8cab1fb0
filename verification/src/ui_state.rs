//! The dispatch tables of a finished document: which node answers which
//! event, and the tags under which nodes take part in hit-testing.

use std::collections::BTreeMap;
use vstd::prelude::*;
use crate::callbacks::{filter_callbacks, select_callbacks, selects_any, CallbackMap, FilterKind};
use crate::dom::Dom;
use crate::events::{DesktopEventFilter, EventFilter, FocusEventFilter, HoverEventFilter,
    NotEventFilter, TabIndex, WindowEventFilter};
use crate::id_tree::NodeId;
use crate::listing::{is_listing, lemma_preorder_is_a_listing};
use crate::node::{clone_overrides, overrides, Callback, CssProperty, DefaultCallbackId,
    NodeDataView};
use crate::preorder::{lemma_preorder_is_slot_order, preorder, slots};
use crate::tags::{has_hit_testable, lemma_contains_push, lemma_hit_testable_categories,
    lemma_tagged_walk_distinct, lemma_tagged_walk_members, lemma_tagged_walk_of_slots,
    lemma_tagged_walk_step, needs_tag, new_tag_id, next_tag_after, tagged_walk, TagAllocator,
    TagId};
use crate::walk::as_ints;

verus! {

broadcast use {vstd::std_specs::btree::group_btree_axioms, vstd::laws_cmp::group_laws_cmp};

/// The lists of regular callbacks of `nodes`, slot by slot.
pub open spec fn callback_lists(nodes: Seq<NodeDataView>) -> Seq<Seq<(EventFilter, Callback)>> {
    Seq::new(nodes.len(), |i: int| nodes[i].callbacks)
}

/// The lists of default callbacks of `nodes`, slot by slot.
pub open spec fn default_callback_lists(nodes: Seq<NodeDataView>) -> Seq<
    Seq<(EventFilter, DefaultCallbackId)>,
> {
    Seq::new(nodes.len(), |i: int| nodes[i].default_callback_ids)
}

/// The slots of an arena of `len` slots.
pub open spec fn all_slots(len: int) -> Set<int> {
    Set::new(|i: int| 0 <= i < len)
}

/// The slots that a walk along `order` has reached after `k` steps.
pub open spec fn reached(order: Seq<int>, k: int) -> Set<int> {
    Set::new(|x: int| exists|p: int| 0 <= p < k && #[trigger] order[p] == x)
}

/// Whether `table` is the dispatch table of one category for the slots
/// `seen` of the callback lists `lists`: it has an entry for exactly those
/// of the slots whose list has a filter of the category, and the entry is
/// the dispatch map of that list.
pub open spec fn callbacks_recorded<K: FilterKind, V: Copy>(
    table: Map<usize, CallbackMap<K, V>>,
    lists: Seq<Seq<(EventFilter, V)>>,
    seen: Set<int>,
) -> bool {
    forall|i: usize|
        {
            &&& #[trigger] table.contains_key(i) <==> (seen.contains(i as int) && selects_any::<K, V>(
                lists[i as int],
            ))
            &&& table.contains_key(i) ==> table[i].wf() && table[i]@
                == select_callbacks::<K, V>(lists[i as int])
        }
}

/// Whether `table` holds the style overrides of exactly those of the slots
/// `seen` that have any.
pub open spec fn overrides_recorded(
    table: Map<usize, Vec<(String, CssProperty)>>,
    nodes: Seq<NodeDataView>,
    seen: Set<int>,
) -> bool {
    forall|i: usize|
        {
            &&& #[trigger] table.contains_key(i) <==> (seen.contains(i as int)
                && nodes[i as int].dynamic_css_overrides.len() > 0)
            &&& table.contains_key(i) ==> overrides(table[i]@) == nodes[i as int].dynamic_css_overrides
        }
}

/// Whether `table` numbers the slots of `walk` from 1: its tags are 1, 2,
/// ... up to the length of `walk`, and tag `j` belongs to the `j`-th slot.
pub open spec fn tags_listed(table: Map<TagId, NodeId>, walk: Seq<int>) -> bool {
    &&& forall|t: TagId| #[trigger] table.contains_key(t) <==> 1 <= t <= walk.len()
    &&& forall|j: int| 0 <= j < walk.len() ==> (#[trigger] table[(j + 1) as u64]).index == walk[j]
}

/// Whether `table` numbers the tagged nodes of `nodes` from 1 in the order
/// in which `order` reaches them: its tags are 1, 2, ... up to the number of
/// tagged nodes that `order` reaches, and tag `j` is the tag of the `j`-th
/// of them.
pub open spec fn tags_number_the_walk(
    table: Map<TagId, NodeId>,
    nodes: Seq<NodeDataView>,
    order: Seq<int>,
) -> bool {
    tags_listed(table, tagged_walk(nodes, order))
}

/// Whether `table` gives each slot of `walk` its place in `walk`, counted
/// from 1, as its tag, and has no other entries.
pub open spec fn node_tags_recorded(table: Map<usize, TagId>, walk: Seq<int>) -> bool {
    &&& forall|i: usize| #[trigger] table.contains_key(i) <==> walk.contains(i as int)
    &&& forall|j: int|
        0 <= j < walk.len() ==> table.contains_key((#[trigger] walk[j]) as usize) && table[walk[j] as usize]
            == (j + 1) as u64
}

/// Whether `table` maps exactly the tags of the draggable nodes of `walk` to
/// those nodes, the tag of a node being its place in `walk`, counted from 1.
pub open spec fn draggable_recorded(
    table: Map<TagId, NodeId>,
    nodes: Seq<NodeDataView>,
    walk: Seq<int>,
) -> bool {
    forall|t: TagId|
        {
            &&& #[trigger] table.contains_key(t) <==> (1 <= t <= walk.len() && nodes[walk[t
                - 1]].draggable)
            &&& table.contains_key(t) ==> table[t].index == walk[t - 1]
        }
}

/// Whether `table` maps exactly the tags of the focusable nodes of `walk` to
/// those nodes and their tab index, the tag of a node being its place in
/// `walk`, counted from 1.
pub open spec fn tab_index_recorded(
    table: Map<TagId, (NodeId, TabIndex)>,
    nodes: Seq<NodeDataView>,
    walk: Seq<int>,
) -> bool {
    forall|t: TagId|
        {
            &&& #[trigger] table.contains_key(t) <==> (1 <= t <= walk.len() && nodes[walk[t
                - 1]].tab_index is Some)
            &&& table.contains_key(t) ==> table[t].0.index == walk[t - 1] && Some(table[t].1)
                == nodes[walk[t - 1]].tab_index
        }
}

/// All the tags of hit-testing and all the dispatch tables of a document.
#[derive(Debug)]
pub struct UiState {
    /// The document that the tables were built from
    pub dom: Dom,
    /// The style overrides of the nodes that have any, by slot
    pub dynamic_css_overrides: BTreeMap<usize, Vec<(String, CssProperty)>>,
    /// The nodes that can be focused, by tag
    pub tab_index_tags: BTreeMap<TagId, (NodeId, TabIndex)>,
    /// The nodes that can be dragged, by tag
    pub draggable_tags: BTreeMap<TagId, NodeId>,
    /// The tag of each node that has one, by slot
    pub node_ids_to_tag_ids: BTreeMap<usize, TagId>,
    /// The node of each tag
    pub tag_ids_to_node_ids: BTreeMap<TagId, NodeId>,
    pub hover_callbacks: BTreeMap<usize, CallbackMap<HoverEventFilter, Callback>>,
    pub hover_default_callbacks: BTreeMap<usize, CallbackMap<HoverEventFilter, DefaultCallbackId>>,
    pub focus_callbacks: BTreeMap<usize, CallbackMap<FocusEventFilter, Callback>>,
    pub focus_default_callbacks: BTreeMap<usize, CallbackMap<FocusEventFilter, DefaultCallbackId>>,
    pub not_callbacks: BTreeMap<usize, CallbackMap<NotEventFilter, Callback>>,
    pub not_default_callbacks: BTreeMap<usize, CallbackMap<NotEventFilter, DefaultCallbackId>>,
    pub window_callbacks: BTreeMap<usize, CallbackMap<WindowEventFilter, Callback>>,
    pub window_default_callbacks: BTreeMap<usize, CallbackMap<WindowEventFilter, DefaultCallbackId>>,
    pub desktop_callbacks: BTreeMap<usize, CallbackMap<DesktopEventFilter, Callback>>,
    pub desktop_default_callbacks: BTreeMap<usize, CallbackMap<DesktopEventFilter, DefaultCallbackId>>,
}

impl UiState {
    /// The slots of the document in the order in which its tree is walked
    /// parent first.
    pub open spec fn walk(&self) -> Seq<int> {
        preorder(self.dom.layout())
    }

    /// The slots of the nodes that take part in hit-testing, in the order
    /// in which the walk reaches them: the node in place `j`, counted from
    /// 1, has the tag `j`.
    pub open spec fn tagged(&self) -> Seq<int> {
        tagged_walk(self.dom.data(), self.walk())
    }

    /// Whether every table is the one that belongs to the document `dom`.
    pub open spec fn wf(&self) -> bool {
        let nodes = self.dom.data();
        let seen = all_slots(nodes.len() as int);
        let regular = callback_lists(nodes);
        let default = default_callback_lists(nodes);
        &&& self.dom.wf()
        &&& overrides_recorded(self.dynamic_css_overrides@, nodes, seen)
        &&& tab_index_recorded(self.tab_index_tags@, nodes, self.tagged())
        &&& draggable_recorded(self.draggable_tags@, nodes, self.tagged())
        &&& node_tags_recorded(self.node_ids_to_tag_ids@, self.tagged())
        &&& tags_listed(self.tag_ids_to_node_ids@, self.tagged())
        &&& callbacks_recorded(self.hover_callbacks@, regular, seen)
        &&& callbacks_recorded(self.hover_default_callbacks@, default, seen)
        &&& callbacks_recorded(self.focus_callbacks@, regular, seen)
        &&& callbacks_recorded(self.focus_default_callbacks@, default, seen)
        &&& callbacks_recorded(self.not_callbacks@, regular, seen)
        &&& callbacks_recorded(self.not_default_callbacks@, default, seen)
        &&& callbacks_recorded(self.window_callbacks@, regular, seen)
        &&& callbacks_recorded(self.window_default_callbacks@, default, seen)
        &&& callbacks_recorded(self.desktop_callbacks@, regular, seen)
        &&& callbacks_recorded(self.desktop_default_callbacks@, default, seen)
    }
}

/// One step further, a walk has reached one slot more.
proof fn lemma_reached_step(order: Seq<int>, k: int)
    requires
        0 <= k < order.len(),
    ensures
        reached(order, k + 1) == reached(order, k).insert(order[k]),
{
    assert forall|x: int| reached(order, k + 1).contains(x) == reached(order, k).insert(
        order[k],
    ).contains(x) by {
        if reached(order, k + 1).contains(x) {
            let p = choose|p: int| 0 <= p < k + 1 && #[trigger] order[p] == x;
            if p < k {
                assert(reached(order, k).contains(x));
            }
        }
        if reached(order, k).contains(x) {
            let p = choose|p: int| 0 <= p < k && #[trigger] order[p] == x;
            assert(0 <= p < k + 1 && order[p] == x);
        }
        if x == order[k] {
            assert(0 <= k < k + 1 && order[k] == x);
        }
    }
    assert(reached(order, k + 1) =~= reached(order, k).insert(order[k]));
}

/// At its end, a walk that lists the slots has reached them all.
proof fn lemma_reached_all(order: Seq<int>, len: int)
    requires
        is_listing(order, len),
    ensures
        reached(order, order.len() as int) == all_slots(len),
{
    assert forall|x: int| reached(order, order.len() as int).contains(x) == all_slots(
        len,
    ).contains(x) by {
        if reached(order, order.len() as int).contains(x) {
            let p = choose|p: int| 0 <= p < order.len() && #[trigger] order[p] == x;
        }
        if 0 <= x < len {
            assert(order.contains(x));
            let p = choose|p: int| 0 <= p < order.len() && order[p] == x;
            assert(0 <= p < order.len() && order[p] == x);
        }
    }
    assert(reached(order, order.len() as int) =~= all_slots(len));
}

/// A table that covers some slots covers one more if the list of that slot
/// has no filter of the table's category.
proof fn lemma_callbacks_skipped<K: FilterKind, V: Copy>(
    table: Map<usize, CallbackMap<K, V>>,
    lists: Seq<Seq<(EventFilter, V)>>,
    seen: Set<int>,
    slot: usize,
)
    requires
        callbacks_recorded(table, lists, seen),
        !selects_any::<K, V>(lists[slot as int]),
    ensures
        callbacks_recorded(table, lists, seen.insert(slot as int)),
{
    let more = seen.insert(slot as int);
    assert forall|i: usize|
        {
            &&& #[trigger] table.contains_key(i) <==> (more.contains(i as int) && selects_any::<K, V>(
                lists[i as int],
            ))
            &&& table.contains_key(i) ==> table[i].wf() && table[i]@
                == select_callbacks::<K, V>(lists[i as int])
        } by {
        assert(table.contains_key(i) <==> (seen.contains(i as int) && selects_any::<K, V>(
            lists[i as int],
        )));
    }
}

/// Builds the dispatch map of `source`, the callback list of the node in
/// slot `node_id`, for one category, and records it in `table` unless it
/// is empty. Returns whether it was recorded.
fn filter_and_insert_callbacks<K: FilterKind, V: Copy>(
    node_id: usize,
    source: &Vec<(EventFilter, V)>,
    table: &mut BTreeMap<usize, CallbackMap<K, V>>,
    Ghost(lists): Ghost<Seq<Seq<(EventFilter, V)>>>,
    Ghost(seen): Ghost<Set<int>>,
) -> (inserted: bool)
    requires
        node_id < lists.len(),
        lists[node_id as int] == source@,
        callbacks_recorded(old(table)@, lists, seen),
    ensures
        inserted == selects_any::<K, V>(source@),
        callbacks_recorded(final(table)@, lists, seen.insert(node_id as int)),
{
    let node_callbacks: CallbackMap<K, V> = filter_callbacks(source);
    if !node_callbacks.is_empty() {
        table.insert(node_id, node_callbacks);
        proof {
            let after = table@;
            let before = old(table)@;
            let more = seen.insert(node_id as int);
            assert forall|i: usize|
                {
                    &&& #[trigger] after.contains_key(i) <==> (more.contains(i as int) && selects_any::<
                        K,
                        V,
                    >(lists[i as int]))
                    &&& after.contains_key(i) ==> after[i].wf() && after[i]@
                        == select_callbacks::<K, V>(lists[i as int])
                } by {
                assert(before.contains_key(i) <==> (seen.contains(i as int) && selects_any::<K, V>(
                    lists[i as int],
                )));
            }
        }
        true
    } else {
        proof {
            lemma_callbacks_skipped(table@, lists, seen, node_id);
        }
        false
    }
}

/// How the table of style overrides goes on by one slot.
proof fn lemma_overrides_step(
    table: Map<usize, Vec<(String, CssProperty)>>,
    nodes: Seq<NodeDataView>,
    seen: Set<int>,
    slot: usize,
    copy: Vec<(String, CssProperty)>,
)
    requires
        overrides_recorded(table, nodes, seen),
        overrides(copy@) == nodes[slot as int].dynamic_css_overrides,
    ensures
        nodes[slot as int].dynamic_css_overrides.len() > 0 ==> overrides_recorded(
            table.insert(slot, copy),
            nodes,
            seen.insert(slot as int),
        ),
        nodes[slot as int].dynamic_css_overrides.len() == 0 ==> overrides_recorded(
            table,
            nodes,
            seen.insert(slot as int),
        ),
{
    let more = seen.insert(slot as int);
    if nodes[slot as int].dynamic_css_overrides.len() > 0 {
        let after = table.insert(slot, copy);
        assert forall|i: usize|
            {
                &&& #[trigger] after.contains_key(i) <==> (more.contains(i as int)
                    && nodes[i as int].dynamic_css_overrides.len() > 0)
                &&& after.contains_key(i) ==> overrides(after[i]@)
                    == nodes[i as int].dynamic_css_overrides
            } by {
            assert(table.contains_key(i) <==> (seen.contains(i as int)
                && nodes[i as int].dynamic_css_overrides.len() > 0));
        }
    } else {
        assert forall|i: usize|
            {
                &&& #[trigger] table.contains_key(i) <==> (more.contains(i as int)
                    && nodes[i as int].dynamic_css_overrides.len() > 0)
                &&& table.contains_key(i) ==> overrides(table[i]@)
                    == nodes[i as int].dynamic_css_overrides
            } by {
            assert(table.contains_key(i) <==> (seen.contains(i as int)
                && nodes[i as int].dynamic_css_overrides.len() > 0));
        }
    }
}

/// How the table of nodes by tag goes on when the walk reaches a tagged
/// node.
proof fn lemma_tags_listed_step(table: Map<TagId, NodeId>, walk: Seq<int>, slot: usize)
    requires
        tags_listed(table, walk),
        walk.len() < u64::MAX,
    ensures
        tags_listed(table.insert((walk.len() + 1) as u64, NodeId { index: slot }), walk.push(slot as int)),
{
    let tag = (walk.len() + 1) as u64;
    let after = table.insert(tag, NodeId { index: slot });
    let more = walk.push(slot as int);
    assert forall|t: TagId| #[trigger] after.contains_key(t) <==> 1 <= t <= more.len() by {
        assert(table.contains_key(t) <==> 1 <= t <= walk.len());
    }
    assert forall|j: int| 0 <= j < more.len() implies (#[trigger] after[(j + 1) as u64]).index
        == more[j] by {
        if j < walk.len() {
            assert(table[(j + 1) as u64].index == walk[j]);
        }
    }
}

/// How the table of tags by node goes on when the walk reaches a tagged
/// node that it has not reached before.
proof fn lemma_node_tags_step(table: Map<usize, TagId>, walk: Seq<int>, slot: usize)
    requires
        node_tags_recorded(table, walk),
        walk.len() < u64::MAX,
        !walk.contains(slot as int),
        forall|j: int| 0 <= j < walk.len() ==> 0 <= #[trigger] walk[j] <= usize::MAX,
    ensures
        node_tags_recorded(table.insert(slot, (walk.len() + 1) as u64), walk.push(slot as int)),
{
    let tag = (walk.len() + 1) as u64;
    let after = table.insert(slot, tag);
    let more = walk.push(slot as int);
    assert forall|i: usize| #[trigger] after.contains_key(i) <==> more.contains(i as int) by {
        lemma_contains_push(walk, slot as int, i as int);
        assert(table.contains_key(i) <==> walk.contains(i as int));
    }
    assert forall|j: int| 0 <= j < more.len() implies after.contains_key((#[trigger] more[j]) as usize)
        && after[more[j] as usize] == (j + 1) as u64 by {
        if j < walk.len() {
            assert(walk.contains(walk[j]));
            assert(table.contains_key(walk[j] as usize) && table[walk[j] as usize] == (j + 1) as u64);
        }
    }
}

/// How the table of draggable nodes goes on when the walk reaches a tagged
/// node.
proof fn lemma_draggable_step(
    table: Map<TagId, NodeId>,
    nodes: Seq<NodeDataView>,
    walk: Seq<int>,
    slot: usize,
)
    requires
        draggable_recorded(table, nodes, walk),
        walk.len() < u64::MAX,
    ensures
        nodes[slot as int].draggable ==> draggable_recorded(
            table.insert((walk.len() + 1) as u64, NodeId { index: slot }),
            nodes,
            walk.push(slot as int),
        ),
        !nodes[slot as int].draggable ==> draggable_recorded(table, nodes, walk.push(slot as int)),
{
    let tag = (walk.len() + 1) as u64;
    let more = walk.push(slot as int);
    if nodes[slot as int].draggable {
        let after = table.insert(tag, NodeId { index: slot });
        assert forall|t: TagId|
            {
                &&& #[trigger] after.contains_key(t) <==> (1 <= t <= more.len() && nodes[more[t
                    - 1]].draggable)
                &&& after.contains_key(t) ==> after[t].index == more[t - 1]
            } by {
            assert(table.contains_key(t) <==> (1 <= t <= walk.len() && nodes[walk[t - 1]].draggable));
        }
    } else {
        assert forall|t: TagId|
            {
                &&& #[trigger] table.contains_key(t) <==> (1 <= t <= more.len() && nodes[more[t
                    - 1]].draggable)
                &&& table.contains_key(t) ==> table[t].index == more[t - 1]
            } by {
            assert(table.contains_key(t) <==> (1 <= t <= walk.len() && nodes[walk[t - 1]].draggable));
        }
    }
}

/// How the table of focusable nodes goes on when the walk reaches a tagged
/// node.
proof fn lemma_tab_index_step(
    table: Map<TagId, (NodeId, TabIndex)>,
    nodes: Seq<NodeDataView>,
    walk: Seq<int>,
    slot: usize,
)
    requires
        tab_index_recorded(table, nodes, walk),
        walk.len() < u64::MAX,
    ensures
        nodes[slot as int].tab_index matches Some(tab_index) ==> tab_index_recorded(
            table.insert((walk.len() + 1) as u64, (NodeId { index: slot }, tab_index)),
            nodes,
            walk.push(slot as int),
        ),
        nodes[slot as int].tab_index is None ==> tab_index_recorded(
            table,
            nodes,
            walk.push(slot as int),
        ),
{
    let tag = (walk.len() + 1) as u64;
    let more = walk.push(slot as int);
    match nodes[slot as int].tab_index {
        Some(tab_index) => {
            let after = table.insert(tag, (NodeId { index: slot }, tab_index));
            assert forall|t: TagId|
                {
                    &&& #[trigger] after.contains_key(t) <==> (1 <= t <= more.len() && nodes[more[t
                        - 1]].tab_index is Some)
                    &&& after.contains_key(t) ==> after[t].0.index == more[t - 1] && Some(after[t].1)
                        == nodes[more[t - 1]].tab_index
                } by {
                assert(table.contains_key(t) <==> (1 <= t <= walk.len() && nodes[walk[t
                    - 1]].tab_index is Some));
            }
        },
        None => {
            assert forall|t: TagId|
                {
                    &&& #[trigger] table.contains_key(t) <==> (1 <= t <= more.len() && nodes[more[t
                        - 1]].tab_index is Some)
                    &&& table.contains_key(t) ==> table[t].0.index == more[t - 1] && Some(table[t].1)
                        == nodes[more[t - 1]].tab_index
                } by {
                assert(table.contains_key(t) <==> (1 <= t <= walk.len() && nodes[walk[t
                    - 1]].tab_index is Some));
            }
        },
    }
}

impl Dom {
    /// Builds the dispatch tables of this document, and tags the nodes that
    /// take part in hit-testing.
    ///
    /// The tree is walked once, parent first, the children of a node in the
    /// order of their links. The tags start at 1: `tags` is reset first, the
    /// nodes that take part in hit-testing are numbered in the order in
    /// which the walk reaches them, and `tags` is left at the tag that
    /// follows the last one given.
    pub fn into_ui_state(self, tags: &mut TagAllocator) -> (ui: UiState)
        requires
            self.wf(),
        ensures
            ui.dom == self,
            ui.wf(),
            final(tags).next == next_tag_after(
                tagged_walk(self.data(), preorder(self.layout())).len(),
            ),
            tags_number_the_walk(ui.tag_ids_to_node_ids@, self.data(), preorder(self.layout())),
            self.in_preorder() ==> tags_number_the_walk(
                ui.tag_ids_to_node_ids@,
                self.data(),
                slots(0, self.layout().len() as int),
            ),
    {
        // All tags that can be focused (necessary for hit-testing)
        let mut tab_index_tags: BTreeMap<TagId, (NodeId, TabIndex)> = BTreeMap::new();
        // All tags that can be dragged & dropped (necessary for hit-testing)
        let mut draggable_tags: BTreeMap<TagId, NodeId> = BTreeMap::new();
        // Mapping from tags to nodes (necessary so that the hit-testing can resolve the node from any given tag)
        let mut tag_ids_to_node_ids: BTreeMap<TagId, NodeId> = BTreeMap::new();
        // Mapping from nodes to tags, reverse mapping
        let mut node_ids_to_tag_ids: BTreeMap<usize, TagId> = BTreeMap::new();
        // Which nodes have extra dynamic style overrides?
        let mut dynamic_css_overrides: BTreeMap<usize, Vec<(String, CssProperty)>> = BTreeMap::new();

        let mut hover_callbacks: BTreeMap<usize, CallbackMap<HoverEventFilter, Callback>> =
            BTreeMap::new();
        let mut hover_default_callbacks: BTreeMap<
            usize,
            CallbackMap<HoverEventFilter, DefaultCallbackId>,
        > = BTreeMap::new();
        let mut focus_callbacks: BTreeMap<usize, CallbackMap<FocusEventFilter, Callback>> =
            BTreeMap::new();
        let mut focus_default_callbacks: BTreeMap<
            usize,
            CallbackMap<FocusEventFilter, DefaultCallbackId>,
        > = BTreeMap::new();
        let mut not_callbacks: BTreeMap<usize, CallbackMap<NotEventFilter, Callback>> =
            BTreeMap::new();
        let mut not_default_callbacks: BTreeMap<
            usize,
            CallbackMap<NotEventFilter, DefaultCallbackId>,
        > = BTreeMap::new();
        let mut window_callbacks: BTreeMap<usize, CallbackMap<WindowEventFilter, Callback>> =
            BTreeMap::new();
        let mut window_default_callbacks: BTreeMap<
            usize,
            CallbackMap<WindowEventFilter, DefaultCallbackId>,
        > = BTreeMap::new();
        let mut desktop_callbacks: BTreeMap<usize, CallbackMap<DesktopEventFilter, Callback>> =
            BTreeMap::new();
        let mut desktop_default_callbacks: BTreeMap<
            usize,
            CallbackMap<DesktopEventFilter, DefaultCallbackId>,
        > = BTreeMap::new();

        // Reset the tag
        tags.reset();

        let order = self.preorder_slots();
        let ghost nodes = self.data();
        let ghost regular = callback_lists(nodes);
        let ghost default = default_callback_lists(nodes);
        let ghost walk_order = as_ints(order@);
        proof {
            lemma_preorder_is_a_listing(self.layout());
            assert(tagged_walk(nodes, walk_order.take(0)) =~= Seq::<int>::empty());
            assert(reached(walk_order, 0) =~= Set::<int>::empty());
        }
        let mut step: usize = 0;
        while step < order.len()
            invariant
                self.wf(),
                nodes == self.data(),
                regular == callback_lists(nodes),
                default == default_callback_lists(nodes),
                walk_order == as_ints(order@),
                walk_order == preorder(self.layout()),
                is_listing(walk_order, nodes.len() as int),
                0 <= step <= order@.len(),
                tags.next == next_tag_after(tagged_walk(nodes, walk_order.take(step as int)).len()),
                overrides_recorded(dynamic_css_overrides@, nodes, reached(walk_order, step as int)),
                tab_index_recorded(
                    tab_index_tags@,
                    nodes,
                    tagged_walk(nodes, walk_order.take(step as int)),
                ),
                draggable_recorded(
                    draggable_tags@,
                    nodes,
                    tagged_walk(nodes, walk_order.take(step as int)),
                ),
                node_tags_recorded(
                    node_ids_to_tag_ids@,
                    tagged_walk(nodes, walk_order.take(step as int)),
                ),
                tags_listed(tag_ids_to_node_ids@, tagged_walk(nodes, walk_order.take(step as int))),
                callbacks_recorded(hover_callbacks@, regular, reached(walk_order, step as int)),
                callbacks_recorded(hover_default_callbacks@, default, reached(walk_order, step as int)),
                callbacks_recorded(focus_callbacks@, regular, reached(walk_order, step as int)),
                callbacks_recorded(focus_default_callbacks@, default, reached(walk_order, step as int)),
                callbacks_recorded(not_callbacks@, regular, reached(walk_order, step as int)),
                callbacks_recorded(not_default_callbacks@, default, reached(walk_order, step as int)),
                callbacks_recorded(window_callbacks@, regular, reached(walk_order, step as int)),
                callbacks_recorded(window_default_callbacks@, default, reached(walk_order, step as int)),
                callbacks_recorded(desktop_callbacks@, regular, reached(walk_order, step as int)),
                callbacks_recorded(desktop_default_callbacks@, default, reached(walk_order, step as int)),
            decreases order@.len() - step,
        {
            let node_id = order[step];
            let ghost seen = reached(walk_order, step as int);
            let ghost walk = tagged_walk(nodes, walk_order.take(step as int));
            proof {
                assert(walk_order[step as int] == node_id);
                assert(0 <= walk_order[step as int] < nodes.len());
            }
            let data = &self.arena.node_data.internal[node_id];
            proof {
                assert(nodes[node_id as int] == data@);
                assert(regular[node_id as int] == data.callbacks@);
                assert(default[node_id as int] == data.default_callback_ids@);
                lemma_hit_testable_categories(data.callbacks@);
                lemma_hit_testable_categories(data.default_callback_ids@);
                lemma_reached_step(walk_order, step as int);
                lemma_tagged_walk_step(nodes, walk_order, step as int);
                lemma_tagged_walk_distinct(nodes, walk_order.take(step as int));
                // the walk has not been at this node before
                lemma_tagged_walk_members(nodes, walk_order.take(step as int), node_id as int);
                if walk_order.take(step as int).contains(node_id as int) {
                    let p = choose|p: int|
                        0 <= p < walk_order.take(step as int).len() && walk_order.take(
                            step as int,
                        )[p] == node_id as int;
                    assert(walk_order[p] == walk_order[step as int]);
                }
                assert forall|j: int| 0 <= j < walk.len() implies 0 <= #[trigger] walk[j]
                    <= usize::MAX by {
                    assert(walk.contains(walk[j]));
                    lemma_tagged_walk_members(nodes, walk_order.take(step as int), walk[j]);
                    let p = choose|p: int|
                        0 <= p < walk_order.take(step as int).len() && walk_order.take(
                            step as int,
                        )[p] == walk[j];
                    assert(walk_order[p] == walk[j]);
                }
            }

            let mut node_tag_id: Option<TagId> = None;

            // Optimization since on most nodes, the callbacks will be empty
            if !data.callbacks.is_empty() {
                // Filter and insert the hover callbacks
                if filter_and_insert_callbacks(node_id, &data.callbacks, &mut hover_callbacks, Ghost(regular), Ghost(seen)) {
                    node_tag_id = Some(tag_or_new(node_tag_id, tags));
                }
                // Filter and insert the focus callbacks
                if filter_and_insert_callbacks(node_id, &data.callbacks, &mut focus_callbacks, Ghost(regular), Ghost(seen)) {
                    node_tag_id = Some(tag_or_new(node_tag_id, tags));
                }
                if filter_and_insert_callbacks(node_id, &data.callbacks, &mut not_callbacks, Ghost(regular), Ghost(seen)) {
                    node_tag_id = Some(tag_or_new(node_tag_id, tags));
                }
                filter_and_insert_callbacks(node_id, &data.callbacks, &mut window_callbacks, Ghost(regular), Ghost(seen));
                filter_and_insert_callbacks(node_id, &data.callbacks, &mut desktop_callbacks, Ghost(regular), Ghost(seen));
            } else {
                proof {
                    lemma_callbacks_skipped(hover_callbacks@, regular, seen, node_id);
                    lemma_callbacks_skipped(focus_callbacks@, regular, seen, node_id);
                    lemma_callbacks_skipped(not_callbacks@, regular, seen, node_id);
                    lemma_callbacks_skipped(window_callbacks@, regular, seen, node_id);
                    lemma_callbacks_skipped(desktop_callbacks@, regular, seen, node_id);
                }
            }

            if !data.default_callback_ids.is_empty() {
                if filter_and_insert_callbacks(node_id, &data.default_callback_ids, &mut hover_default_callbacks, Ghost(default), Ghost(seen)) {
                    node_tag_id = Some(tag_or_new(node_tag_id, tags));
                }
                if filter_and_insert_callbacks(node_id, &data.default_callback_ids, &mut focus_default_callbacks, Ghost(default), Ghost(seen)) {
                    node_tag_id = Some(tag_or_new(node_tag_id, tags));
                }
                if filter_and_insert_callbacks(node_id, &data.default_callback_ids, &mut not_default_callbacks, Ghost(default), Ghost(seen)) {
                    node_tag_id = Some(tag_or_new(node_tag_id, tags));
                }
                filter_and_insert_callbacks(node_id, &data.default_callback_ids, &mut window_default_callbacks, Ghost(default), Ghost(seen));
                filter_and_insert_callbacks(node_id, &data.default_callback_ids, &mut desktop_default_callbacks, Ghost(default), Ghost(seen));
            } else {
                proof {
                    lemma_callbacks_skipped(hover_default_callbacks@, default, seen, node_id);
                    lemma_callbacks_skipped(focus_default_callbacks@, default, seen, node_id);
                    lemma_callbacks_skipped(not_default_callbacks@, default, seen, node_id);
                    lemma_callbacks_skipped(window_default_callbacks@, default, seen, node_id);
                    lemma_callbacks_skipped(desktop_default_callbacks@, default, seen, node_id);
                }
            }

            proof {
                assert(node_tag_id is Some <==> (has_hit_testable(data.callbacks@) || has_hit_testable(
                    data.default_callback_ids@,
                )));
                lemma_draggable_step(draggable_tags@, nodes, walk, node_id);
                lemma_tab_index_step(tab_index_tags@, nodes, walk, node_id);
                lemma_node_tags_step(node_ids_to_tag_ids@, walk, node_id);
                lemma_tags_listed_step(tag_ids_to_node_ids@, walk, node_id);
            }

            if data.draggable {
                let tag_id = tag_or_new(node_tag_id, tags);
                draggable_tags.insert(tag_id, NodeId::new(node_id));
                node_tag_id = Some(tag_id);
            }

            if let Some(tab_index) = data.tab_index {
                let tag_id = tag_or_new(node_tag_id, tags);
                tab_index_tags.insert(tag_id, (NodeId::new(node_id), tab_index));
                node_tag_id = Some(tag_id);
            }

            if let Some(tag_id) = node_tag_id {
                tag_ids_to_node_ids.insert(tag_id, NodeId::new(node_id));
                node_ids_to_tag_ids.insert(node_id, tag_id);
            }

            // Collect all the styling overrides
            if !data.dynamic_css_overrides.is_empty() {
                let copy = clone_overrides(&data.dynamic_css_overrides);
                proof {
                    lemma_overrides_step(dynamic_css_overrides@, nodes, seen, node_id, copy);
                }
                dynamic_css_overrides.insert(node_id, copy);
            } else {
                proof {
                    lemma_overrides_step(dynamic_css_overrides@, nodes, seen, node_id, data.dynamic_css_overrides);
                }
            }

            step += 1;
        }

        proof {
            assert(walk_order.take(step as int) =~= walk_order);
            lemma_reached_all(walk_order, nodes.len() as int);
            if self.in_preorder() {
                lemma_preorder_is_slot_order(self.layout());
            }
        }

        UiState {
            dom: self,
            dynamic_css_overrides,
            tab_index_tags,
            draggable_tags,
            node_ids_to_tag_ids,
            tag_ids_to_node_ids,
            hover_callbacks,
            hover_default_callbacks,
            focus_callbacks,
            focus_default_callbacks,
            not_callbacks,
            not_default_callbacks,
            window_callbacks,
            window_default_callbacks,
            desktop_callbacks,
            desktop_default_callbacks,
        }
    }
}

/// The tag of the node that is being looked at: the one it has, or else the
/// next one that `tags` hands out.
fn tag_or_new(node_tag_id: Option<TagId>, tags: &mut TagAllocator) -> (tag: TagId)
    ensures
        node_tag_id matches Some(t) ==> tag == t && final(tags).next == old(tags).next,
        node_tag_id is None ==> tag == old(tags).next && final(tags).next == (if old(tags).next
            == u64::MAX {
            0
        } else {
            old(tags).next + 1
        }),
{
    match node_tag_id {
        Some(tag) => tag,
        None => new_tag_id(tags),
    }
}

impl UiState {
    /// The walk of the document lists its slots, each once, and so the
    /// tagged nodes are listed each once.
    pub proof fn lemma_walk_is_a_listing(self)
        requires
            self.wf(),
        ensures
            is_listing(self.walk(), self.dom.layout().len() as int),
            self.walk().len() == self.dom.layout().len(),
            self.tagged().len() <= self.dom.layout().len() <= usize::MAX,
            self.tagged().no_duplicates(),
            forall|j: int|
                0 <= j < self.tagged().len() ==> 0 <= #[trigger] self.tagged()[j]
                    < self.dom.layout().len() && needs_tag(self.dom.data()[self.tagged()[j]]),
    {
        lemma_preorder_is_a_listing(self.dom.layout());
        lemma_tagged_walk_distinct(self.dom.data(), self.walk());
        assert(self.dom.arena.node_layout.internal@.len()
            == self.dom.arena.node_layout.internal.len());
        assert forall|j: int| 0 <= j < self.tagged().len() implies 0 <= #[trigger] self.tagged()[j]
            < self.dom.layout().len() && needs_tag(self.dom.data()[self.tagged()[j]]) by {
            let x = self.tagged()[j];
            assert(self.tagged().contains(x));
            lemma_tagged_walk_members(self.dom.data(), self.walk(), x);
            let p = choose|p: int| 0 <= p < self.walk().len() && self.walk()[p] == x;
            assert(0 <= self.walk()[p] < self.dom.layout().len());
        }
    }

    /// The two tag tables are inverse to each other: node `i` has tag `t`
    /// in the table by node exactly if tag `t` has node `i` in the table by
    /// tag.
    pub proof fn lemma_tag_tables_are_inverse(self, i: usize, t: TagId)
        requires
            self.wf(),
        ensures
            (self.node_ids_to_tag_ids@.contains_key(i) && self.node_ids_to_tag_ids@[i] == t) <==> (
            self.tag_ids_to_node_ids@.contains_key(t) && self.tag_ids_to_node_ids@[t].index == i),
    {
        let walk = self.tagged();
        self.lemma_walk_is_a_listing();
        assert(self.dom.arena.node_layout.internal@.len()
            == self.dom.arena.node_layout.internal.len());
        if self.node_ids_to_tag_ids@.contains_key(i) && self.node_ids_to_tag_ids@[i] == t {
            assert(walk.contains(i as int));
            let j = choose|j: int| 0 <= j < walk.len() && walk[j] == i as int;
            assert(self.node_ids_to_tag_ids@[walk[j] as usize] == (j + 1) as u64);
            assert(self.tag_ids_to_node_ids@[(j + 1) as u64].index == walk[j]);
        }
        if self.tag_ids_to_node_ids@.contains_key(t) && self.tag_ids_to_node_ids@[t].index == i {
            let j = t - 1;
            assert(self.tag_ids_to_node_ids@[(j + 1) as u64].index == walk[j]);
            assert(self.node_ids_to_tag_ids@.contains_key(walk[j] as usize)
                && self.node_ids_to_tag_ids@[walk[j] as usize] == (j + 1) as u64);
        }
    }

    /// A node has a tag exactly if it has a hover, focus or inverse
    /// callback, regular or default, or is draggable, or can be focused.
    pub proof fn lemma_tagged_iff_hit_testable(self, i: usize)
        requires
            self.wf(),
            i < self.dom.data().len(),
        ensures
            self.node_ids_to_tag_ids@.contains_key(i) <==> (has_hit_testable(
                self.dom.data()[i as int].callbacks,
            ) || has_hit_testable(self.dom.data()[i as int].default_callback_ids)
                || self.dom.data()[i as int].draggable || self.dom.data()[i as int].tab_index is Some),
    {
        self.lemma_walk_is_a_listing();
        lemma_tagged_walk_members(self.dom.data(), self.walk(), i as int);
        assert(self.walk().contains(i as int));
    }

    /// The tags in use are exactly 1, 2, ... up to the number of tagged
    /// nodes, and tag `j` is the tag of the `j`-th tagged node that the walk
    /// reaches: the tags grow along the walk, and none is given twice.
    pub proof fn lemma_tags_count_from_one(self, t: TagId)
        requires
            self.wf(),
        ensures
            self.tag_ids_to_node_ids@.contains_key(t) <==> 1 <= t <= self.tagged().len(),
            self.tag_ids_to_node_ids@.contains_key(t) ==> self.tag_ids_to_node_ids@[t].index
                == self.tagged()[t - 1],
    {
        if self.tag_ids_to_node_ids@.contains_key(t) {
            let j = t - 1;
            assert(self.tag_ids_to_node_ids@[(j + 1) as u64].index == self.tagged()[j]);
        }
    }

    /// In a document that is stored parent first, the tags grow with the
    /// slots: of two tagged nodes, the one in the earlier slot has the
    /// smaller tag, and every tag is at least 1.
    pub proof fn lemma_tags_follow_slots(self, i: usize, j: usize)
        requires
            self.wf(),
            self.dom.in_preorder(),
            i < j,
            self.node_ids_to_tag_ids@.contains_key(i),
            self.node_ids_to_tag_ids@.contains_key(j),
        ensures
            1 <= self.node_ids_to_tag_ids@[i] < self.node_ids_to_tag_ids@[j],
    {
        let walk = self.tagged();
        let n = self.dom.layout().len() as int;
        lemma_preorder_is_slot_order(self.dom.layout());
        lemma_tagged_walk_of_slots(self.dom.data(), n);
        assert(self.dom.arena.node_layout.internal@.len()
            == self.dom.arena.node_layout.internal.len());
        lemma_tagged_walk_distinct(self.dom.data(), self.walk());
        assert(walk.contains(i as int));
        assert(walk.contains(j as int));
        let a = choose|a: int| 0 <= a < walk.len() && walk[a] == i as int;
        let b = choose|b: int| 0 <= b < walk.len() && walk[b] == j as int;
        assert(self.node_ids_to_tag_ids@[walk[a] as usize] == (a + 1) as u64);
        assert(self.node_ids_to_tag_ids@[walk[b] as usize] == (b + 1) as u64);
        if b < a {
            assert(walk[b] < walk[a]);
        }
    }
}

} // verus!
