//! Per-node dispatch maps: which callback of a node answers which kind of
//! event, for one event category at a time.

use vstd::prelude::*;
use crate::events::{DesktopEventFilter, EventFilter, FocusEventFilter, HoverEventFilter,
    NotEventFilter, WindowEventFilter};

verus! {

/// The kind of event of one category. An event filter belongs to exactly one
/// category, and `select` gives its kind if the category is this one.
pub trait FilterKind: Copy + Sized {
    /// The kind of `filter`, if `filter` belongs to this category.
    spec fn select(filter: EventFilter) -> Option<Self>;

    /// The kind of `filter`, if `filter` belongs to this category.
    fn from_filter(filter: &EventFilter) -> (kind: Option<Self>)
        ensures
            kind == Self::select(*filter),
    ;

    /// Whether two kinds are the same.
    fn same(&self, other: &Self) -> (same: bool)
        ensures
            same == (*self == *other),
    ;
}

impl FilterKind for HoverEventFilter {
    open spec fn select(filter: EventFilter) -> Option<HoverEventFilter> {
        match filter {
            EventFilter::Hover(e) => Some(e),
            _ => None,
        }
    }

    fn from_filter(filter: &EventFilter) -> (kind: Option<HoverEventFilter>) {
        filter.as_hover_event_filter()
    }

    fn same(&self, other: &HoverEventFilter) -> (same: bool) {
        *self == *other
    }
}

impl FilterKind for FocusEventFilter {
    open spec fn select(filter: EventFilter) -> Option<FocusEventFilter> {
        match filter {
            EventFilter::Focus(e) => Some(e),
            _ => None,
        }
    }

    fn from_filter(filter: &EventFilter) -> (kind: Option<FocusEventFilter>) {
        filter.as_focus_event_filter()
    }

    fn same(&self, other: &FocusEventFilter) -> (same: bool) {
        *self == *other
    }
}

impl FilterKind for NotEventFilter {
    open spec fn select(filter: EventFilter) -> Option<NotEventFilter> {
        match filter {
            EventFilter::Not(e) => Some(e),
            _ => None,
        }
    }

    fn from_filter(filter: &EventFilter) -> (kind: Option<NotEventFilter>) {
        filter.as_not_event_filter()
    }

    fn same(&self, other: &NotEventFilter) -> (same: bool) {
        *self == *other
    }
}

impl FilterKind for WindowEventFilter {
    open spec fn select(filter: EventFilter) -> Option<WindowEventFilter> {
        match filter {
            EventFilter::Window(e) => Some(e),
            _ => None,
        }
    }

    fn from_filter(filter: &EventFilter) -> (kind: Option<WindowEventFilter>) {
        filter.as_window_event_filter()
    }

    fn same(&self, other: &WindowEventFilter) -> (same: bool) {
        *self == *other
    }
}

impl FilterKind for DesktopEventFilter {
    open spec fn select(filter: EventFilter) -> Option<DesktopEventFilter> {
        match filter {
            EventFilter::Desktop(e) => Some(e),
            _ => None,
        }
    }

    fn from_filter(filter: &EventFilter) -> (kind: Option<DesktopEventFilter>) {
        filter.as_desktop_event_filter()
    }

    fn same(&self, other: &DesktopEventFilter) -> (same: bool) {
        *self == *other
    }
}

/// Whether some entry of `entries` has the key `key`.
pub open spec fn has_key<K, V>(entries: Seq<(K, V)>, key: K) -> bool {
    exists|i: int| 0 <= i < entries.len() && (#[trigger] entries[i]).0 == key
}

/// The value of an entry of `entries` that has the key `key`.
pub open spec fn value_of<K, V>(entries: Seq<(K, V)>, key: K) -> V {
    entries[choose|i: int| 0 <= i < entries.len() && (#[trigger] entries[i]).0 == key].1
}

/// Whether no key occurs twice in `entries`.
pub open spec fn keys_are_distinct<K, V>(entries: Seq<(K, V)>) -> bool {
    forall|i: int, j: int|
        0 <= i < j < entries.len() ==> (#[trigger] entries[i]).0 != (#[trigger] entries[j]).0
}

/// Where no key occurs twice, an entry's key has the entry's value.
pub proof fn lemma_value_of_entry<K, V>(entries: Seq<(K, V)>, i: int)
    requires
        keys_are_distinct(entries),
        0 <= i < entries.len(),
    ensures
        has_key(entries, entries[i].0),
        value_of(entries, entries[i].0) == entries[i].1,
{
    let key = entries[i].0;
    let j = choose|j: int| 0 <= j < entries.len() && (#[trigger] entries[j]).0 == key;
    if j < i {
        assert(entries[j].0 != entries[i].0);
    } else if i < j {
        assert(entries[i].0 != entries[j].0);
    }
}

/// The callbacks of one node for one category of events, by kind of event.
///
/// The entries are kept as a list in which no kind occurs twice. An ordered
/// map of the standard library would do at run time, but its specification
/// speaks only of keys whose order is known to the verifier, which the
/// derived order of the kinds is not.
#[derive(Debug)]
pub struct CallbackMap<K, V> {
    pub entries: Vec<(K, V)>,
}

impl<K, V> View for CallbackMap<K, V> {
    type V = Map<K, V>;

    open spec fn view(&self) -> Map<K, V> {
        Map::new(|k: K| has_key(self.entries@, k), |k: K| value_of(self.entries@, k))
    }
}

impl<K: FilterKind, V: Copy> CallbackMap<K, V> {
    /// Whether every kind has at most one entry.
    pub open spec fn wf(&self) -> bool {
        keys_are_distinct(self.entries@)
    }

    /// The map without entries.
    pub fn new() -> (map: CallbackMap<K, V>)
        ensures
            map.wf(),
            map@ == Map::<K, V>::empty(),
    {
        let map = CallbackMap { entries: Vec::new() };
        assert(map@ =~= Map::<K, V>::empty());
        map
    }

    /// Number of kinds that have a callback.
    pub fn len(&self) -> (n: usize)
        requires
            self.wf(),
        ensures
            n == self@.dom().len(),
            self@.dom().finite(),
    {
        proof {
            lemma_distinct_keys_count(self.entries@);
        }
        self.entries.len()
    }

    /// Whether no kind has a callback.
    pub fn is_empty(&self) -> (empty: bool)
        ensures
            empty == (self@ == Map::<K, V>::empty()),
    {
        let empty = self.entries.len() == 0;
        proof {
            if empty {
                assert(self@ =~= Map::<K, V>::empty());
            } else {
                assert(has_key(self.entries@, self.entries@[0].0));
                assert(self@.contains_key(self.entries@[0].0));
            }
        }
        empty
    }

    /// The callback for `kind`, if there is one.
    pub fn get(&self, kind: &K) -> (callback: Option<V>)
        requires
            self.wf(),
        ensures
            callback == (if self@.contains_key(*kind) {
                Some(self@[*kind])
            } else {
                None
            }),
    {
        let mut i: usize = 0;
        while i < self.entries.len()
            invariant
                self.wf(),
                0 <= i <= self.entries@.len(),
                forall|j: int| 0 <= j < i ==> (#[trigger] self.entries@[j]).0 != *kind,
            decreases self.entries@.len() - i,
        {
            if self.entries[i].0.same(kind) {
                proof {
                    lemma_value_of_entry(self.entries@, i as int);
                }
                return Some(self.entries[i].1);
            }
            i += 1;
        }
        None
    }

    /// Sets the callback for `kind`, in place of the one that `kind` had, if
    /// it had one.
    pub fn insert(&mut self, kind: K, callback: V)
        requires
            old(self).wf(),
        ensures
            final(self).wf(),
            final(self)@ == old(self)@.insert(kind, callback),
    {
        let ghost before = self.entries@;
        let mut i: usize = 0;
        while i < self.entries.len()
            invariant
                self.entries@ == before,
                old(self).entries@ == before,
                keys_are_distinct(before),
                0 <= i <= before.len(),
                forall|j: int| 0 <= j < i ==> (#[trigger] before[j]).0 != kind,
            decreases before.len() - i,
        {
            if self.entries[i].0.same(&kind) {
                self.entries[i] = (kind, callback);
                proof {
                    let after = self.entries@;
                    assert forall|a: int, b: int| 0 <= a < b < after.len() implies (
                    #[trigger] after[a]).0 != (#[trigger] after[b]).0 by {
                        assert(before[a].0 != before[b].0);
                    }
                    assert forall|k: K| #[trigger] has_key(after, k) == has_key(before, k) by {
                        if has_key(after, k) {
                            let j = choose|j: int| 0 <= j < after.len() && (#[trigger] after[j]).0 == k;
                            assert(before[j].0 == k);
                        }
                        if has_key(before, k) {
                            let j = choose|j: int|
                                0 <= j < before.len() && (#[trigger] before[j]).0 == k;
                            assert(after[j].0 == k);
                        }
                    }
                    assert(before[i as int].0 == kind);
                    assert(has_key(before, kind));
                    assert forall|k: K| has_key(after, k) implies #[trigger] value_of(after, k) == (
                    if k == kind {
                        callback
                    } else {
                        value_of(before, k)
                    }) by {
                        let j = choose|j: int| 0 <= j < after.len() && (#[trigger] after[j]).0 == k;
                        lemma_value_of_entry(after, j);
                        if k != kind {
                            assert(before[j] == after[j]);
                            lemma_value_of_entry(before, j);
                        } else {
                            lemma_value_of_entry(after, i as int);
                        }
                    }
                    assert(self@ =~= old(self)@.insert(kind, callback));
                }
                return;
            }
            i += 1;
        }
        self.entries.push((kind, callback));
        proof {
            let after = self.entries@;
            let last = before.len() as int;
            assert forall|a: int, b: int| 0 <= a < b < after.len() implies (#[trigger] after[a]).0 != (
            #[trigger] after[b]).0 by {
                if b < last {
                    assert(before[a].0 != before[b].0);
                } else {
                    assert(before[a].0 != kind);
                }
            }
            assert(after[last].0 == kind);
            assert(has_key(after, kind));
            assert forall|k: K| #[trigger] has_key(after, k) == (k == kind || has_key(before, k)) by {
                if has_key(after, k) {
                    let j = choose|j: int| 0 <= j < after.len() && (#[trigger] after[j]).0 == k;
                    if j < last {
                        assert(before[j].0 == k);
                    }
                }
                if has_key(before, k) {
                    let j = choose|j: int| 0 <= j < before.len() && (#[trigger] before[j]).0 == k;
                    assert(after[j].0 == k);
                }
            }
            assert forall|k: K| has_key(after, k) implies #[trigger] value_of(after, k) == (if k
                == kind {
                callback
            } else {
                value_of(before, k)
            }) by {
                let j = choose|j: int| 0 <= j < after.len() && (#[trigger] after[j]).0 == k;
                lemma_value_of_entry(after, j);
                if k != kind {
                    assert(before[j] == after[j]);
                    lemma_value_of_entry(before, j);
                } else {
                    lemma_value_of_entry(after, last);
                }
            }
            assert(self@ =~= old(self)@.insert(kind, callback));
        }
    }
}

/// A list without repeated keys has as many keys as entries.
pub proof fn lemma_distinct_keys_count<K, V>(entries: Seq<(K, V)>)
    requires
        keys_are_distinct(entries),
    ensures
        Set::new(|k: K| has_key(entries, k)).finite(),
        Set::new(|k: K| has_key(entries, k)).len() == entries.len(),
    decreases entries.len(),
{
    let keys = Set::new(|k: K| has_key(entries, k));
    if entries.len() == 0 {
        assert(keys =~= Set::<K>::empty());
    } else {
        let rest = entries.drop_last();
        let rest_keys = Set::new(|k: K| has_key(rest, k));
        let key = entries.last().0;
        assert forall|i: int, j: int| 0 <= i < j < rest.len() implies (#[trigger] rest[i]).0 != (
        #[trigger] rest[j]).0 by {
            assert(entries[i].0 != entries[j].0);
        }
        lemma_distinct_keys_count(rest);
        assert(!rest_keys.contains(key)) by {
            if has_key(rest, key) {
                let j = choose|j: int| 0 <= j < rest.len() && (#[trigger] rest[j]).0 == key;
                assert(entries[j].0 != entries[entries.len() - 1].0);
            }
        }
        assert forall|k: K| keys.contains(k) == rest_keys.insert(key).contains(k) by {
            if has_key(entries, k) {
                let j = choose|j: int| 0 <= j < entries.len() && (#[trigger] entries[j]).0 == k;
                if j < rest.len() {
                    assert(rest[j].0 == k);
                }
            }
            if has_key(rest, k) {
                let j = choose|j: int| 0 <= j < rest.len() && (#[trigger] rest[j]).0 == k;
                assert(entries[j].0 == k);
            }
            if k == key {
                assert(entries[entries.len() - 1].0 == k);
            }
        }
        assert(keys =~= rest_keys.insert(key));
    }
}

/// The dispatch map of a list of callbacks for the category of `K`: every
/// kind of the category that a filter of the list has, with the callback
/// that stands with it. Where a kind occurs more than once, the last
/// occurrence counts.
pub open spec fn select_callbacks<K: FilterKind, V>(list: Seq<(EventFilter, V)>) -> Map<K, V>
    decreases list.len(),
{
    if list.len() == 0 {
        Map::empty()
    } else {
        let rest = select_callbacks::<K, V>(list.drop_last());
        match K::select(list.last().0) {
            Some(kind) => rest.insert(kind, list.last().1),
            None => rest,
        }
    }
}

/// Whether some filter of `list` belongs to the category of `K`.
pub open spec fn selects_any<K: FilterKind, V>(list: Seq<(EventFilter, V)>) -> bool {
    exists|i: int| 0 <= i < list.len() && K::select((#[trigger] list[i]).0) is Some
}

/// The dispatch map of a list for a category is empty exactly if no filter
/// of the list belongs to the category.
pub proof fn lemma_select_callbacks_empty<K: FilterKind, V>(list: Seq<(EventFilter, V)>)
    ensures
        (select_callbacks::<K, V>(list) == Map::<K, V>::empty()) <==> !selects_any::<K, V>(list),
    decreases list.len(),
{
    if list.len() == 0 {
    } else {
        let rest = list.drop_last();
        let last = list.len() - 1;
        lemma_select_callbacks_empty::<K, V>(rest);
        match K::select(list.last().0) {
            Some(kind) => {
                assert(select_callbacks::<K, V>(list).contains_key(kind));
                assert(K::select(list[last].0) is Some);
            },
            None => {
                if selects_any::<K, V>(list) {
                    let i = choose|i: int| 0 <= i < list.len() && K::select((#[trigger] list[i]).0) is Some;
                    assert(K::select(rest[i].0) is Some);
                }
                if selects_any::<K, V>(rest) {
                    let i = choose|i: int| 0 <= i < rest.len() && K::select((#[trigger] rest[i]).0) is Some;
                    assert(K::select(list[i].0) is Some);
                }
            },
        }
    }
}

/// In the dispatch map of a list, a kind has the callback of the last entry
/// of the list whose filter has that kind.
pub proof fn lemma_select_callbacks_last_wins<K: FilterKind, V>(
    list: Seq<(EventFilter, V)>,
    i: int,
    kind: K,
)
    requires
        0 <= i < list.len(),
        K::select(list[i].0) == Some(kind),
        forall|j: int| i < j < list.len() ==> K::select((#[trigger] list[j]).0) != Some(kind),
    ensures
        select_callbacks::<K, V>(list).contains_key(kind),
        select_callbacks::<K, V>(list)[kind] == list[i].1,
    decreases list.len(),
{
    let last = list.len() - 1;
    if i < last {
        let rest = list.drop_last();
        assert(K::select(list[last].0) != Some(kind));
        assert forall|j: int| i < j < rest.len() implies K::select((#[trigger] rest[j]).0) != Some(
            kind,
        ) by {
            assert(K::select(list[j].0) != Some(kind));
        }
        lemma_select_callbacks_last_wins::<K, V>(rest, i, kind);
    }
}

/// Builds the dispatch map of a list of callbacks for the category of `K`.
pub fn filter_callbacks<K: FilterKind, V: Copy>(source: &Vec<(EventFilter, V)>) -> (map:
    CallbackMap<K, V>)
    ensures
        map.wf(),
        map@ == select_callbacks::<K, V>(source@),
        (map@ == Map::<K, V>::empty()) <==> !selects_any::<K, V>(source@),
{
    let mut map: CallbackMap<K, V> = CallbackMap::new();
    let mut i: usize = 0;
    while i < source.len()
        invariant
            0 <= i <= source@.len(),
            map.wf(),
            map@ == select_callbacks::<K, V>(source@.take(i as int)),
        decreases source@.len() - i,
    {
        let (filter, callback) = source[i];
        proof {
            assert(source@.take(i + 1).drop_last() =~= source@.take(i as int));
        }
        if let Some(kind) = K::from_filter(&filter) {
            map.insert(kind, callback);
        }
        i += 1;
    }
    proof {
        assert(source@.take(i as int) =~= source@);
        lemma_select_callbacks_empty::<K, V>(source@);
    }
    map
}

} // verus!
