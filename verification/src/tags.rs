//! Tags: the identifiers under which nodes take part in hit-testing, the
//! counter that hands them out, and which node of a document gets which.

use vstd::prelude::*;
use crate::callbacks::{selects_any, FilterKind};
use crate::events::{EventFilter, FocusEventFilter, HoverEventFilter, NotEventFilter};
use crate::node::NodeDataView;
use crate::preorder::slots;

verus! {

/// Identifier under which a node takes part in hit-testing.
pub type TagId = u64;

/// Same as the `TagId`, but only for scrollable nodes
#[derive(Debug, Copy, Clone, PartialEq, Eq, Structural, Hash, PartialOrd, Ord)]
pub struct ScrollTagId(pub TagId);

/// The source of tag identifiers: a counter that hands out 1, 2, 3, ...
#[derive(Debug)]
pub struct TagAllocator {
    pub next: TagId,
}

impl TagAllocator {
    /// An allocator whose first tag is 1.
    pub fn new() -> (tags: TagAllocator)
        ensures
            tags.next == 1,
    {
        TagAllocator { next: 1 }
    }

    /// Starts over: the next tag is 1 again.
    pub fn reset(&mut self)
        ensures
            final(self).next == 1,
    {
        self.next = 1;
    }
}

/// Hands out the next tag and advances the counter, which wraps around at
/// the end of its range.
pub fn new_tag_id(tags: &mut TagAllocator) -> (tag: TagId)
    ensures
        tag == old(tags).next,
        final(tags).next == (if old(tags).next == u64::MAX {
            0
        } else {
            old(tags).next + 1
        }),
{
    let tag = tags.next;
    tags.next = if tag == u64::MAX { 0 } else { tag + 1 };
    tag
}

/// Hands out the next tag, as the tag of a scrollable node.
pub fn new_scroll_tag_id(tags: &mut TagAllocator) -> (tag: ScrollTagId)
    ensures
        tag.0 == old(tags).next,
        final(tags).next == (if old(tags).next == u64::MAX {
            0
        } else {
            old(tags).next + 1
        }),
{
    ScrollTagId(new_tag_id(tags))
}

/// Whether some filter of `list` needs hit-testing.
pub open spec fn has_hit_testable<V>(list: Seq<(EventFilter, V)>) -> bool {
    exists|i: int| 0 <= i < list.len() && (#[trigger] list[i]).0.is_hit_testable()
}

/// Whether a node with the payload `data` takes part in hit-testing: it has
/// a hover, focus or inverse callback (regular or default), or it is
/// draggable, or it can be focused.
pub open spec fn needs_tag(data: NodeDataView) -> bool {
    ||| has_hit_testable(data.callbacks)
    ||| has_hit_testable(data.default_callback_ids)
    ||| data.draggable
    ||| data.tab_index is Some
}

/// The tag that is handed out next when `count` tags were handed out since
/// the counter was reset. The counter wraps around at the end of its range.
pub open spec fn next_tag_after(count: nat) -> TagId {
    if count + 1 > u64::MAX {
        0
    } else {
        (count + 1) as u64
    }
}

/// A list has a filter that needs hit-testing exactly if it has a hover,
/// a focus or an inverse filter.
pub proof fn lemma_hit_testable_categories<V>(list: Seq<(EventFilter, V)>)
    ensures
        has_hit_testable(list) <==> (selects_any::<HoverEventFilter, V>(list) || selects_any::<
            FocusEventFilter,
            V,
        >(list) || selects_any::<NotEventFilter, V>(list)),
{
    if has_hit_testable(list) {
        let i = choose|i: int| 0 <= i < list.len() && (#[trigger] list[i]).0.is_hit_testable();
        assert(HoverEventFilter::select(list[i].0) is Some || FocusEventFilter::select(list[i].0) is Some
            || NotEventFilter::select(list[i].0) is Some);
    }
    if selects_any::<HoverEventFilter, V>(list) {
        let i = choose|i: int| 0 <= i < list.len() && HoverEventFilter::select((#[trigger] list[i]).0) is Some;
        assert(list[i].0.is_hit_testable());
    }
    if selects_any::<FocusEventFilter, V>(list) {
        let i = choose|i: int| 0 <= i < list.len() && FocusEventFilter::select((#[trigger] list[i]).0) is Some;
        assert(list[i].0.is_hit_testable());
    }
    if selects_any::<NotEventFilter, V>(list) {
        let i = choose|i: int| 0 <= i < list.len() && NotEventFilter::select((#[trigger] list[i]).0) is Some;
        assert(list[i].0.is_hit_testable());
    }
}

/// The slots of `order` whose nodes take part in hit-testing, in the order
/// in which `order` has them.
pub open spec fn tagged_walk(nodes: Seq<NodeDataView>, order: Seq<int>) -> Seq<int>
    decreases order.len(),
{
    if order.len() == 0 {
        Seq::empty()
    } else {
        let before = tagged_walk(nodes, order.drop_last());
        if needs_tag(nodes[order.last()]) {
            before.push(order.last())
        } else {
            before
        }
    }
}

/// What is in a sequence with one more item is in the sequence or is the
/// item.
pub proof fn lemma_contains_push(s: Seq<int>, v: int, x: int)
    ensures
        s.push(v).contains(x) == (s.contains(x) || x == v),
{
    if s.contains(x) {
        let k = choose|k: int| 0 <= k < s.len() && s[k] == x;
        assert(s.push(v)[k] == x);
    }
    if x == v {
        assert(s.push(v)[s.len() as int] == x);
    }
    if s.push(v).contains(x) {
        let k = choose|k: int| 0 <= k < s.push(v).len() && s.push(v)[k] == x;
        if k < s.len() {
            assert(s[k] == x);
        }
    }
}

/// The tagged walk reaches the slots that the walk reaches and whose nodes
/// take part in hit-testing, and no others.
pub proof fn lemma_tagged_walk_members(nodes: Seq<NodeDataView>, order: Seq<int>, x: int)
    ensures
        tagged_walk(nodes, order).contains(x) == (order.contains(x) && needs_tag(nodes[x])),
    decreases order.len(),
{
    if order.len() > 0 {
        let front = order.drop_last();
        lemma_tagged_walk_members(nodes, front, x);
        assert(order =~= front.push(order.last()));
        lemma_contains_push(front, order.last(), x);
        lemma_contains_push(tagged_walk(nodes, front), order.last(), x);
    }
}

/// The tagged walk is no longer than the walk, and reaches no slot twice if
/// the walk reaches none twice.
pub proof fn lemma_tagged_walk_distinct(nodes: Seq<NodeDataView>, order: Seq<int>)
    ensures
        tagged_walk(nodes, order).len() <= order.len(),
        order.no_duplicates() ==> tagged_walk(nodes, order).no_duplicates(),
    decreases order.len(),
{
    if order.len() > 0 {
        let front = order.drop_last();
        let last = order.last();
        let before = tagged_walk(nodes, front);
        lemma_tagged_walk_distinct(nodes, front);
        if order.no_duplicates() && needs_tag(nodes[last]) {
            lemma_tagged_walk_members(nodes, front, last);
            if front.contains(last) {
                let k = choose|k: int| 0 <= k < front.len() && front[k] == last;
                assert(order[k] == order[order.len() - 1]);
            }
            assert forall|a: int, b: int|
                0 <= a < before.push(last).len() && 0 <= b < before.push(last).len() && a
                    != b implies before.push(last)[a] != before.push(last)[b] by {
                if a == before.len() {
                    assert(before.contains(before[b]));
                } else if b == before.len() {
                    assert(before.contains(before[a]));
                }
            }
        }
    }
}

/// Going one slot further, the tagged walk grows by that slot if its node
/// takes part in hit-testing, and stays as it is otherwise.
pub proof fn lemma_tagged_walk_step(nodes: Seq<NodeDataView>, order: Seq<int>, k: int)
    requires
        0 <= k < order.len(),
    ensures
        tagged_walk(nodes, order.take(k + 1)) == (if needs_tag(nodes[order[k]]) {
            tagged_walk(nodes, order.take(k)).push(order[k])
        } else {
            tagged_walk(nodes, order.take(k))
        }),
{
    assert(order.take(k + 1).drop_last() =~= order.take(k));
    assert(order.take(k + 1).last() == order[k]);
}

/// Going through the first `k` slots in order, the tagged walk reaches the
/// tagged slots in the order of their numbers.
pub proof fn lemma_tagged_walk_of_slots(nodes: Seq<NodeDataView>, k: int)
    requires
        0 <= k,
    ensures
        forall|a: int|
            0 <= a < tagged_walk(nodes, slots(0, k)).len() ==> 0 <= #[trigger] tagged_walk(
                nodes,
                slots(0, k),
            )[a] < k,
        forall|a: int, b: int|
            0 <= a < b < tagged_walk(nodes, slots(0, k)).len() ==> #[trigger] tagged_walk(
                nodes,
                slots(0, k),
            )[a] < #[trigger] tagged_walk(nodes, slots(0, k))[b],
    decreases k,
{
    if k > 0 {
        lemma_tagged_walk_of_slots(nodes, k - 1);
        assert(slots(0, k).drop_last() =~= slots(0, k - 1));
        assert(slots(0, k).last() == k - 1);
        let before = tagged_walk(nodes, slots(0, k - 1));
        let walk = tagged_walk(nodes, slots(0, k));
        assert(walk == (if needs_tag(nodes[k - 1]) {
            before.push(k - 1)
        } else {
            before
        }));
        assert forall|a: int| 0 <= a < walk.len() implies 0 <= #[trigger] walk[a] < k by {
            if a < before.len() {
                assert(0 <= before[a] < k - 1);
            }
        }
        assert forall|a: int, b: int| 0 <= a < b < walk.len() implies #[trigger] walk[a]
            < #[trigger] walk[b] by {
            if b < before.len() {
                assert(before[a] < before[b]);
            } else {
                assert(0 <= before[a] < k - 1);
            }
        }
    }
}

/// A node whose callbacks are all window or desktop callbacks, and which is
/// neither draggable nor focusable, takes no part in hit-testing.
pub proof fn lemma_window_and_desktop_need_no_tag(data: NodeDataView)
    requires
        forall|i: int|
            0 <= i < data.callbacks.len() ==> (#[trigger] data.callbacks[i]).0 is Window
                || data.callbacks[i].0 is Desktop,
        forall|i: int|
            0 <= i < data.default_callback_ids.len() ==> (#[trigger] data.default_callback_ids[i]).0 is Window
                || data.default_callback_ids[i].0 is Desktop,
        !data.draggable,
        data.tab_index is None,
    ensures
        !needs_tag(data),
{
}

} // verus!
