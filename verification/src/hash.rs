//! The byte encoding of a node's payload, from which its structural hash
//! is computed. Every value is written with its length or its variant in
//! front, so that the bytes of a payload depend on the payload alone.

use std::hash::Hasher;
use vstd::prelude::*;
use vstd::bytes::{spec_u64_to_le_bytes, u64_to_le_bytes};
use vstd::utf8::encode_utf8;
use crate::events::{DesktopEventFilter, EventFilter, FocusEventFilter, HoverEventFilter,
    NotEventFilter, TabIndex, WindowEventFilter};
use crate::node::{Callback, CssProperty, DefaultCallbackId, NodeData, NodeDataView, NodeType,
    NodeTypeView, names, overrides};

verus! {

impl HoverEventFilter {
    /// The place of this kind among the hover kinds, counted from 0.
    pub open spec fn code(self) -> u8 {
        match self {
            HoverEventFilter::MouseOver => 0u8,
            HoverEventFilter::MouseDown => 1u8,
            HoverEventFilter::LeftMouseDown => 2u8,
            HoverEventFilter::RightMouseDown => 3u8,
            HoverEventFilter::MiddleMouseDown => 4u8,
            HoverEventFilter::MouseUp => 5u8,
            HoverEventFilter::LeftMouseUp => 6u8,
            HoverEventFilter::RightMouseUp => 7u8,
            HoverEventFilter::MiddleMouseUp => 8u8,
            HoverEventFilter::MouseEnter => 9u8,
            HoverEventFilter::MouseLeave => 10u8,
            HoverEventFilter::Scroll => 11u8,
            HoverEventFilter::TextInput => 12u8,
            HoverEventFilter::VirtualKeyDown => 13u8,
            HoverEventFilter::VirtualKeyUp => 14u8,
            HoverEventFilter::HoveredFile => 15u8,
            HoverEventFilter::DroppedFile => 16u8,
            HoverEventFilter::HoveredFileCancelled => 17u8,
        }
    }

    /// Writes the encoding of this kind: one byte, its place among the kinds.
    pub fn hash(&self, state: &mut Vec<u8>)
        ensures
            final(state)@ == old(state)@.push(self.code()),
    {
        let code: u8 = match self {
            HoverEventFilter::MouseOver => 0u8,
            HoverEventFilter::MouseDown => 1u8,
            HoverEventFilter::LeftMouseDown => 2u8,
            HoverEventFilter::RightMouseDown => 3u8,
            HoverEventFilter::MiddleMouseDown => 4u8,
            HoverEventFilter::MouseUp => 5u8,
            HoverEventFilter::LeftMouseUp => 6u8,
            HoverEventFilter::RightMouseUp => 7u8,
            HoverEventFilter::MiddleMouseUp => 8u8,
            HoverEventFilter::MouseEnter => 9u8,
            HoverEventFilter::MouseLeave => 10u8,
            HoverEventFilter::Scroll => 11u8,
            HoverEventFilter::TextInput => 12u8,
            HoverEventFilter::VirtualKeyDown => 13u8,
            HoverEventFilter::VirtualKeyUp => 14u8,
            HoverEventFilter::HoveredFile => 15u8,
            HoverEventFilter::DroppedFile => 16u8,
            HoverEventFilter::HoveredFileCancelled => 17u8,
        };
        state.push(code);
    }
}

impl FocusEventFilter {
    /// The place of this kind among the focus kinds, counted from 0.
    pub open spec fn code(self) -> u8 {
        match self {
            FocusEventFilter::MouseOver => 0u8,
            FocusEventFilter::MouseDown => 1u8,
            FocusEventFilter::LeftMouseDown => 2u8,
            FocusEventFilter::RightMouseDown => 3u8,
            FocusEventFilter::MiddleMouseDown => 4u8,
            FocusEventFilter::MouseUp => 5u8,
            FocusEventFilter::LeftMouseUp => 6u8,
            FocusEventFilter::RightMouseUp => 7u8,
            FocusEventFilter::MiddleMouseUp => 8u8,
            FocusEventFilter::MouseEnter => 9u8,
            FocusEventFilter::MouseLeave => 10u8,
            FocusEventFilter::Scroll => 11u8,
            FocusEventFilter::TextInput => 12u8,
            FocusEventFilter::VirtualKeyDown => 13u8,
            FocusEventFilter::VirtualKeyUp => 14u8,
            FocusEventFilter::FocusReceived => 15u8,
            FocusEventFilter::FocusLost => 16u8,
        }
    }

    /// Writes the encoding of this kind: one byte, its place among the kinds.
    pub fn hash(&self, state: &mut Vec<u8>)
        ensures
            final(state)@ == old(state)@.push(self.code()),
    {
        let code: u8 = match self {
            FocusEventFilter::MouseOver => 0u8,
            FocusEventFilter::MouseDown => 1u8,
            FocusEventFilter::LeftMouseDown => 2u8,
            FocusEventFilter::RightMouseDown => 3u8,
            FocusEventFilter::MiddleMouseDown => 4u8,
            FocusEventFilter::MouseUp => 5u8,
            FocusEventFilter::LeftMouseUp => 6u8,
            FocusEventFilter::RightMouseUp => 7u8,
            FocusEventFilter::MiddleMouseUp => 8u8,
            FocusEventFilter::MouseEnter => 9u8,
            FocusEventFilter::MouseLeave => 10u8,
            FocusEventFilter::Scroll => 11u8,
            FocusEventFilter::TextInput => 12u8,
            FocusEventFilter::VirtualKeyDown => 13u8,
            FocusEventFilter::VirtualKeyUp => 14u8,
            FocusEventFilter::FocusReceived => 15u8,
            FocusEventFilter::FocusLost => 16u8,
        };
        state.push(code);
    }
}

impl WindowEventFilter {
    /// The place of this kind among the window kinds, counted from 0.
    pub open spec fn code(self) -> u8 {
        match self {
            WindowEventFilter::MouseOver => 0u8,
            WindowEventFilter::MouseDown => 1u8,
            WindowEventFilter::LeftMouseDown => 2u8,
            WindowEventFilter::RightMouseDown => 3u8,
            WindowEventFilter::MiddleMouseDown => 4u8,
            WindowEventFilter::MouseUp => 5u8,
            WindowEventFilter::LeftMouseUp => 6u8,
            WindowEventFilter::RightMouseUp => 7u8,
            WindowEventFilter::MiddleMouseUp => 8u8,
            WindowEventFilter::MouseEnter => 9u8,
            WindowEventFilter::MouseLeave => 10u8,
            WindowEventFilter::Scroll => 11u8,
            WindowEventFilter::TextInput => 12u8,
            WindowEventFilter::VirtualKeyDown => 13u8,
            WindowEventFilter::VirtualKeyUp => 14u8,
            WindowEventFilter::HoveredFile => 15u8,
            WindowEventFilter::DroppedFile => 16u8,
            WindowEventFilter::HoveredFileCancelled => 17u8,
        }
    }

    /// Writes the encoding of this kind: one byte, its place among the kinds.
    pub fn hash(&self, state: &mut Vec<u8>)
        ensures
            final(state)@ == old(state)@.push(self.code()),
    {
        let code: u8 = match self {
            WindowEventFilter::MouseOver => 0u8,
            WindowEventFilter::MouseDown => 1u8,
            WindowEventFilter::LeftMouseDown => 2u8,
            WindowEventFilter::RightMouseDown => 3u8,
            WindowEventFilter::MiddleMouseDown => 4u8,
            WindowEventFilter::MouseUp => 5u8,
            WindowEventFilter::LeftMouseUp => 6u8,
            WindowEventFilter::RightMouseUp => 7u8,
            WindowEventFilter::MiddleMouseUp => 8u8,
            WindowEventFilter::MouseEnter => 9u8,
            WindowEventFilter::MouseLeave => 10u8,
            WindowEventFilter::Scroll => 11u8,
            WindowEventFilter::TextInput => 12u8,
            WindowEventFilter::VirtualKeyDown => 13u8,
            WindowEventFilter::VirtualKeyUp => 14u8,
            WindowEventFilter::HoveredFile => 15u8,
            WindowEventFilter::DroppedFile => 16u8,
            WindowEventFilter::HoveredFileCancelled => 17u8,
        };
        state.push(code);
    }
}

impl DesktopEventFilter {
    /// The place of this kind among the desktop kinds, counted from 0.
    pub open spec fn code(self) -> u8 {
        match self {
            DesktopEventFilter::DeviceAdded => 0u8,
            DesktopEventFilter::DeviceRemoved => 1u8,
            DesktopEventFilter::ControllerMotion => 2u8,
            DesktopEventFilter::AppSuspended => 3u8,
            DesktopEventFilter::AppResumed => 4u8,
            DesktopEventFilter::Awakened => 5u8,
        }
    }

    /// Writes the encoding of this kind: one byte, its place among the kinds.
    pub fn hash(&self, state: &mut Vec<u8>)
        ensures
            final(state)@ == old(state)@.push(self.code()),
    {
        let code: u8 = match self {
            DesktopEventFilter::DeviceAdded => 0u8,
            DesktopEventFilter::DeviceRemoved => 1u8,
            DesktopEventFilter::ControllerMotion => 2u8,
            DesktopEventFilter::AppSuspended => 3u8,
            DesktopEventFilter::AppResumed => 4u8,
            DesktopEventFilter::Awakened => 5u8,
        };
        state.push(code);
    }
}

/// The encoding of an unsigned number: eight bytes, the lowest first.
pub open spec fn number_bytes(x: usize) -> Seq<u8> {
    spec_u64_to_le_bytes(x as u64)
}

/// The encoding of a string: the number of bytes of its UTF-8 form, then
/// those bytes.
pub open spec fn str_bytes(s: Seq<char>) -> Seq<u8> {
    number_bytes(encode_utf8(s).len() as usize) + encode_utf8(s)
}

/// The encodings of the items of `list`, one after the other.
pub open spec fn joined<T>(list: Seq<T>, encode: spec_fn(T) -> Seq<u8>) -> Seq<u8>
    decreases list.len(),
{
    if list.len() == 0 {
        Seq::empty()
    } else {
        joined(list.drop_last(), encode) + encode(list.last())
    }
}

/// The encoding of a list: the number of its items, then their encodings.
pub open spec fn list_bytes<T>(list: Seq<T>, encode: spec_fn(T) -> Seq<u8>) -> Seq<u8> {
    number_bytes(list.len() as usize) + joined(list, encode)
}

impl NotEventFilter {
    /// The encoding of an inverse filter: 0 and the hover kind, or 1 and the
    /// focus kind.
    pub open spec fn hash_bytes(self) -> Seq<u8> {
        match self {
            NotEventFilter::Hover(e) => seq![0u8, e.code()],
            NotEventFilter::Focus(e) => seq![1u8, e.code()],
        }
    }

    /// Writes the encoding of this filter.
    pub fn hash(&self, state: &mut Vec<u8>)
        ensures
            final(state)@ == old(state)@ + self.hash_bytes(),
    {
        match self {
            NotEventFilter::Hover(e) => {
                state.push(0u8);
                e.hash(state);
            },
            NotEventFilter::Focus(e) => {
                state.push(1u8);
                e.hash(state);
            },
        }
        assert(state@ =~= old(state)@ + self.hash_bytes());
    }
}

impl EventFilter {
    /// The encoding of a filter: the number of its category, then the
    /// encoding of its kind.
    pub open spec fn hash_bytes(self) -> Seq<u8> {
        match self {
            EventFilter::Hover(e) => seq![0u8, e.code()],
            EventFilter::Not(e) => seq![1u8] + e.hash_bytes(),
            EventFilter::Focus(e) => seq![2u8, e.code()],
            EventFilter::Window(e) => seq![3u8, e.code()],
            EventFilter::Desktop(e) => seq![4u8, e.code()],
        }
    }

    /// Writes the encoding of this filter.
    pub fn hash(&self, state: &mut Vec<u8>)
        ensures
            final(state)@ == old(state)@ + self.hash_bytes(),
    {
        match self {
            EventFilter::Hover(e) => {
                state.push(0u8);
                e.hash(state);
            },
            EventFilter::Not(e) => {
                state.push(1u8);
                e.hash(state);
            },
            EventFilter::Focus(e) => {
                state.push(2u8);
                e.hash(state);
            },
            EventFilter::Window(e) => {
                state.push(3u8);
                e.hash(state);
            },
            EventFilter::Desktop(e) => {
                state.push(4u8);
                e.hash(state);
            },
        }
        assert(state@ =~= old(state)@ + self.hash_bytes());
    }
}

impl TabIndex {
    /// The encoding of a tab index: the number of its variant, then its
    /// priority, if it has one.
    pub open spec fn hash_bytes(self) -> Seq<u8> {
        match self {
            TabIndex::Auto => seq![0u8],
            TabIndex::OverrideInParent(priority) => seq![1u8] + number_bytes(priority),
            TabIndex::Global(priority) => seq![2u8] + number_bytes(priority),
        }
    }

    /// Writes the encoding of this tab index.
    pub fn hash(&self, state: &mut Vec<u8>)
        ensures
            final(state)@ == old(state)@ + self.hash_bytes(),
    {
        match self {
            TabIndex::Auto => {
                state.push(0u8);
            },
            TabIndex::OverrideInParent(priority) => {
                state.push(1u8);
                write_number(state, *priority);
            },
            TabIndex::Global(priority) => {
                state.push(2u8);
                write_number(state, *priority);
            },
        }
        assert(state@ =~= old(state)@ + self.hash_bytes());
    }
}

/// Writes the encoding of a number.
pub fn write_number(state: &mut Vec<u8>, x: usize)
    ensures
        final(state)@ == old(state)@ + number_bytes(x),
{
    let mut bytes = u64_to_le_bytes(x as u64);
    state.append(&mut bytes);
}

/// Writes the encoding of a string.
pub fn write_str(state: &mut Vec<u8>, s: &str)
    ensures
        final(state)@ == old(state)@ + str_bytes(s@),
{
    let bytes = s.as_bytes();
    write_number(state, bytes.len());
    let mut i: usize = 0;
    while i < bytes.len()
        invariant
            0 <= i <= bytes@.len(),
            bytes@ == encode_utf8(s@),
            state@ == old(state)@ + number_bytes(bytes@.len() as usize) + bytes@.take(i as int),
        decreases bytes@.len() - i,
    {
        state.push(bytes[i]);
        assert(bytes@.take(i + 1) =~= bytes@.take(i as int).push(bytes@[i as int]));
        i += 1;
    }
    assert(bytes@.take(i as int) =~= bytes@);
    assert(state@ =~= old(state)@ + str_bytes(s@));
}

/// How a string of a list is encoded.
pub open spec fn str_encoder() -> spec_fn(Seq<char>) -> Seq<u8> {
    |s: Seq<char>| str_bytes(s)
}

/// How a callback of a list is encoded: its filter, then its identity.
pub open spec fn callback_encoder() -> spec_fn((EventFilter, Callback)) -> Seq<u8> {
    |c: (EventFilter, Callback)| c.0.hash_bytes() + number_bytes(c.1.0)
}

/// How a default callback of a list is encoded: its filter, then its
/// identifier.
pub open spec fn default_callback_encoder() -> spec_fn((EventFilter, DefaultCallbackId)) -> Seq<u8> {
    |c: (EventFilter, DefaultCallbackId)| c.0.hash_bytes() + number_bytes(c.1.0)
}

/// How a style override of a list is encoded: its name, then the handle of
/// the property.
pub open spec fn override_encoder() -> spec_fn((Seq<char>, CssProperty)) -> Seq<u8> {
    |o: (Seq<char>, CssProperty)| str_bytes(o.0) + spec_u64_to_le_bytes(o.1.0)
}

/// The encoding of a list of `i + 1` items ends with the encoding of item `i`.
proof fn lemma_joined_take<T>(list: Seq<T>, encode: spec_fn(T) -> Seq<u8>, i: int)
    requires
        0 <= i < list.len(),
    ensures
        joined(list.take(i + 1), encode) == joined(list.take(i), encode) + encode(list[i]),
{
    assert(list.take(i + 1).drop_last() =~= list.take(i));
}

impl NodeTypeView {
    /// The encoding of an element kind: the number of the kind, then what
    /// the kind holds. Callbacks and contexts are encoded by their identity.
    pub open spec fn hash_bytes(self) -> Seq<u8> {
        match self {
            NodeTypeView::Div => seq![0u8],
            NodeTypeView::Label(text) => seq![1u8] + str_bytes(text),
            NodeTypeView::Text(id) => seq![2u8] + number_bytes(id.0),
            NodeTypeView::Image(id) => seq![3u8] + number_bytes(id.0),
            NodeTypeView::GlTexture(callback, ptr) => seq![4u8] + number_bytes(callback.0)
                + number_bytes(ptr.0),
            NodeTypeView::IFrame(callback, ptr) => seq![5u8] + number_bytes(callback.0)
                + number_bytes(ptr.0),
        }
    }
}

impl NodeType {
    /// Writes the encoding of this element kind.
    pub fn hash(&self, state: &mut Vec<u8>)
        ensures
            final(state)@ == old(state)@ + self@.hash_bytes(),
    {
        match self {
            NodeType::Div => {
                state.push(0u8);
            },
            NodeType::Label(a) => {
                state.push(1u8);
                write_str(state, a.as_str());
            },
            NodeType::Text(a) => {
                state.push(2u8);
                write_number(state, a.0);
            },
            NodeType::Image(a) => {
                state.push(3u8);
                write_number(state, a.0);
            },
            NodeType::GlTexture((callback, ptr)) => {
                state.push(4u8);
                write_number(state, callback.0);
                write_number(state, ptr.0);
            },
            NodeType::IFrame((callback, ptr)) => {
                state.push(5u8);
                write_number(state, callback.0);
                write_number(state, ptr.0);
            },
        }
        assert(state@ =~= old(state)@ + self@.hash_bytes());
    }
}

impl NodeDataView {
    /// The encoding of a payload: the element kind, the ids, the classes,
    /// the callbacks, the default callbacks, the style overrides, whether
    /// the node is draggable, and the tab index.
    pub open spec fn hash_bytes(self) -> Seq<u8> {
        self.node_type.hash_bytes() + self.ids_part()
    }

    /// The encoding from the ids on.
    pub open spec fn ids_part(self) -> Seq<u8> {
        list_bytes(self.ids, str_encoder()) + self.classes_part()
    }

    /// The encoding from the classes on.
    pub open spec fn classes_part(self) -> Seq<u8> {
        list_bytes(self.classes, str_encoder()) + self.callbacks_part()
    }

    /// The encoding from the callbacks on.
    pub open spec fn callbacks_part(self) -> Seq<u8> {
        list_bytes(self.callbacks, callback_encoder()) + self.default_callbacks_part()
    }

    /// The encoding from the default callbacks on.
    pub open spec fn default_callbacks_part(self) -> Seq<u8> {
        list_bytes(self.default_callback_ids, default_callback_encoder()) + self.overrides_part()
    }

    /// The encoding from the style overrides on.
    pub open spec fn overrides_part(self) -> Seq<u8> {
        list_bytes(self.dynamic_css_overrides, override_encoder()) + self.draggable_part()
    }

    /// The encoding from the draggable flag on: one byte, 1 for a
    /// draggable node.
    pub open spec fn draggable_part(self) -> Seq<u8> {
        seq![if self.draggable {
            1u8
        } else {
            0u8
        }] + self.tab_index_part()
    }

    /// The encoding of the tab index, the last part of the encoding: 0 for
    /// none, or 1 and the encoding of the tab index.
    pub open spec fn tab_index_part(self) -> Seq<u8> {
        match self.tab_index {
            Some(tab_index) => seq![1u8] + tab_index.hash_bytes(),
            None => seq![0u8],
        }
    }
}

/// Writing `p` and then `t` is writing `p` followed by `t`.
proof fn lemma_written<A>(start: Seq<A>, p: Seq<A>, t: Seq<A>)
    ensures
        (start + p) + t == start + (p + t),
{
    assert((start + p) + t =~= start + (p + t));
}

/// Writes the encoding of a list of strings.
fn write_names(state: &mut Vec<u8>, list: &Vec<String>)
    ensures
        final(state)@ == old(state)@ + list_bytes(names(list@), str_encoder()),
{
    let ghost items = names(list@);
    write_number(state, list.len());
    let mut i: usize = 0;
    while i < list.len()
        invariant
            0 <= i <= list@.len(),
            items == names(list@),
            state@ == old(state)@ + number_bytes(list@.len() as usize) + joined(
                items.take(i as int),
                str_encoder(),
            ),
        decreases list@.len() - i,
    {
        proof {
            lemma_joined_take(items, str_encoder(), i as int);
        }
        write_str(state, list[i].as_str());
        i += 1;
    }
    assert(items.take(i as int) =~= items);
    assert(state@ =~= old(state)@ + list_bytes(items, str_encoder()));
}

/// Writes the encoding of a list of callbacks.
fn write_callbacks(state: &mut Vec<u8>, list: &Vec<(EventFilter, Callback)>)
    ensures
        final(state)@ == old(state)@ + list_bytes(list@, callback_encoder()),
{
    write_number(state, list.len());
    let mut i: usize = 0;
    while i < list.len()
        invariant
            0 <= i <= list@.len(),
            state@ == old(state)@ + number_bytes(list@.len() as usize) + joined(
                list@.take(i as int),
                callback_encoder(),
            ),
        decreases list@.len() - i,
    {
        proof {
            lemma_joined_take(list@, callback_encoder(), i as int);
        }
        let ghost before = state@;
        list[i].0.hash(state);
        write_number(state, list[i].1.0);
        assert(state@ =~= before + callback_encoder()(list@[i as int]));
        i += 1;
    }
    assert(list@.take(i as int) =~= list@);
    assert(state@ =~= old(state)@ + list_bytes(list@, callback_encoder()));
}

/// Writes the encoding of a list of default callbacks.
fn write_default_callbacks(state: &mut Vec<u8>, list: &Vec<(EventFilter, DefaultCallbackId)>)
    ensures
        final(state)@ == old(state)@ + list_bytes(list@, default_callback_encoder()),
{
    write_number(state, list.len());
    let mut i: usize = 0;
    while i < list.len()
        invariant
            0 <= i <= list@.len(),
            state@ == old(state)@ + number_bytes(list@.len() as usize) + joined(
                list@.take(i as int),
                default_callback_encoder(),
            ),
        decreases list@.len() - i,
    {
        proof {
            lemma_joined_take(list@, default_callback_encoder(), i as int);
        }
        let ghost before = state@;
        list[i].0.hash(state);
        write_number(state, list[i].1.0);
        assert(state@ =~= before + default_callback_encoder()(list@[i as int]));
        i += 1;
    }
    assert(list@.take(i as int) =~= list@);
    assert(state@ =~= old(state)@ + list_bytes(list@, default_callback_encoder()));
}

/// Writes the encoding of a list of style overrides.
fn write_overrides(state: &mut Vec<u8>, list: &Vec<(String, CssProperty)>)
    ensures
        final(state)@ == old(state)@ + list_bytes(overrides(list@), override_encoder()),
{
    let ghost items = overrides(list@);
    write_number(state, list.len());
    let mut i: usize = 0;
    while i < list.len()
        invariant
            0 <= i <= list@.len(),
            items == overrides(list@),
            state@ == old(state)@ + number_bytes(list@.len() as usize) + joined(
                items.take(i as int),
                override_encoder(),
            ),
        decreases list@.len() - i,
    {
        proof {
            lemma_joined_take(items, override_encoder(), i as int);
        }
        let ghost before = state@;
        write_str(state, list[i].0.as_str());
        let mut property = u64_to_le_bytes(list[i].1.0);
        state.append(&mut property);
        assert(state@ =~= before + override_encoder()(items[i as int]));
        i += 1;
    }
    assert(items.take(i as int) =~= items);
    assert(state@ =~= old(state)@ + list_bytes(items, override_encoder()));
}

impl NodeData {
    /// Writes the encoding of this payload.
    pub fn hash(&self, state: &mut Vec<u8>)
        ensures
            final(state)@ == old(state)@ + self@.hash_bytes(),
    {
        let ghost s0 = state@;
        self.node_type.hash(state);
        let ghost s1 = state@;
        write_names(state, &self.ids);
        let ghost s2 = state@;
        write_names(state, &self.classes);
        let ghost s3 = state@;
        write_callbacks(state, &self.callbacks);
        let ghost s4 = state@;
        write_default_callbacks(state, &self.default_callback_ids);
        let ghost s5 = state@;
        write_overrides(state, &self.dynamic_css_overrides);
        let ghost s6 = state@;
        state.push(if self.draggable { 1u8 } else { 0u8 });
        let ghost s7 = state@;
        match self.tab_index {
            Some(tab_index) => {
                state.push(1u8);
                tab_index.hash(state);
                proof {
                    lemma_written(s7, seq![1u8], tab_index.hash_bytes());
                    assert(s7.push(1u8) =~= s7 + seq![1u8]);
                }
            },
            None => {
                state.push(0u8);
                assert(s7.push(0u8) =~= s7 + seq![0u8]);
            },
        }
        proof {
            let d = self@;
            let flag = seq![if self.draggable { 1u8 } else { 0u8 }];
            assert(state@ == s7 + d.tab_index_part());
            assert(s7 =~= s6 + flag);
            lemma_written(s6, flag, d.tab_index_part());
            lemma_written(s5, list_bytes(d.dynamic_css_overrides, override_encoder()), d.draggable_part());
            lemma_written(s4, list_bytes(d.default_callback_ids, default_callback_encoder()), d.overrides_part());
            lemma_written(s3, list_bytes(d.callbacks, callback_encoder()), d.default_callbacks_part());
            lemma_written(s2, list_bytes(d.classes, str_encoder()), d.callbacks_part());
            lemma_written(s1, list_bytes(d.ids, str_encoder()), d.classes_part());
            lemma_written(s0, d.node_type.hash_bytes(), d.ids_part());
        }
    }

    /// The structural hash of this payload: the 64-bit xxHash, with seed 0,
    /// of its encoding. It depends on the payload alone.
    pub fn calculate_node_data_hash(&self) -> (hash: DomHash)
        ensures
            hash.0 == xx_hash64(self@.hash_bytes()),
    {
        let mut state: Vec<u8> = Vec::new();
        self.hash(&mut state);
        assert(state@ =~= self@.hash_bytes());
        DomHash(hash_of_bytes(state.as_slice()))
    }
}

/// Calculated hash of a node, used for telling quickly whether two nodes
/// may differ.
#[derive(Debug, Copy, Clone, Hash, PartialEq, Eq, Structural, Ord, PartialOrd)]
pub struct DomHash(pub u64);

/// The 64-bit xxHash, with seed 0, of a sequence of bytes.
pub uninterp spec fn xx_hash64(bytes: Seq<u8>) -> u64;

/// Computes the 64-bit xxHash of `bytes` with `twox_hash::XxHash64`: a hasher
/// with seed 0 is fed the bytes in one piece and asked for the result. The
/// contract claims no more than that the result is a function of the bytes.
#[verifier::external_body]
fn hash_of_bytes(bytes: &[u8]) -> (hash: u64)
    ensures
        hash == xx_hash64(bytes@),
{
    let mut hasher = twox_hash::XxHash64::default();
    hasher.write(bytes);
    hasher.finish()
}

/// Two payloads of the same value have the same hash, whatever slot or
/// document they are in.
pub proof fn lemma_equal_payloads_hash_equal(a: NodeData, b: NodeData)
    requires
        a@ == b@,
    ensures
        xx_hash64(a@.hash_bytes()) == xx_hash64(b@.hash_bytes()),
{
}

} // verus!
