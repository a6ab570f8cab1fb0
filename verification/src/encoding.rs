//! Why the structural hash tells payloads apart as well as its hash
//! function allows: the byte encoding that is hashed is different for
//! different payloads.

use vstd::prelude::*;
use vstd::bytes::{lemma_auto_spec_u64_to_from_le_bytes, spec_u64_from_le_bytes,
    spec_u64_to_le_bytes};
use vstd::utf8::{encode_utf8, encode_utf8_decode_utf8};
use crate::events::{EventFilter, NotEventFilter, TabIndex};
use crate::hash::{callback_encoder, default_callback_encoder, joined, list_bytes, number_bytes,
    override_encoder, str_bytes, str_encoder};
use crate::node::{Callback, CssProperty, DefaultCallbackId, NodeDataView, NodeTypeView};

verus! {

/// Whether the UTF-8 form of a string is short enough for its length to be
/// written as a number. Every string in memory is.
pub open spec fn str_fits(s: Seq<char>) -> bool {
    encode_utf8(s).len() <= usize::MAX
}

/// Whether a list is short enough for its length to be written as a number,
/// and each of its items fits. Every list in memory is.
pub open spec fn list_fits<T>(list: Seq<T>, fits: spec_fn(T) -> bool) -> bool {
    &&& list.len() <= usize::MAX
    &&& forall|i: int| 0 <= i < list.len() ==> fits(#[trigger] list[i])
}

/// The lengths that fit for the strings of a list.
pub open spec fn str_fitting() -> spec_fn(Seq<char>) -> bool {
    |s: Seq<char>| str_fits(s)
}

/// The lengths that fit for the overrides of a list.
pub open spec fn override_fitting() -> spec_fn((Seq<char>, CssProperty)) -> bool {
    |o: (Seq<char>, CssProperty)| str_fits(o.0)
}

/// Callbacks always fit.
pub open spec fn callback_fitting() -> spec_fn((EventFilter, Callback)) -> bool {
    |c: (EventFilter, Callback)| true
}

/// Default callbacks always fit.
pub open spec fn default_callback_fitting() -> spec_fn((EventFilter, DefaultCallbackId)) -> bool {
    |c: (EventFilter, DefaultCallbackId)| true
}

impl NodeDataView {
    /// Whether every length in this payload can be written as a number, as
    /// it can for every payload in memory.
    pub open spec fn fits(self) -> bool {
        &&& self.node_type matches NodeTypeView::Label(text) ==> str_fits(text)
        &&& list_fits(self.ids, str_fitting())
        &&& list_fits(self.classes, str_fitting())
        &&& list_fits(self.callbacks, callback_fitting())
        &&& list_fits(self.default_callback_ids, default_callback_fitting())
        &&& list_fits(self.dynamic_css_overrides, override_fitting())
    }
}

/// What it means that the encoding `encode` tells where it ends: if the
/// encodings of `x` and `y`, each followed by more bytes, are the same
/// bytes, then `x` is `y`, and what follows is the same.
pub open spec fn delimits<T>(
    encode: spec_fn(T) -> Seq<u8>,
    fits: spec_fn(T) -> bool,
    x: T,
    y: T,
    r: Seq<u8>,
    s: Seq<u8>,
) -> bool {
    fits(x) && fits(y) && encode(x) + r == encode(y) + s ==> x == y && r == s
}

/// Two sequences that begin with pieces of the same length are equal only
/// if the pieces are, and the rests.
pub proof fn lemma_split<A>(p: Seq<A>, r: Seq<A>, q: Seq<A>, s: Seq<A>)
    requires
        p.len() == q.len(),
        p + r == q + s,
    ensures
        p == q,
        r == s,
{
    let n = p.len() as int;
    assert((p + r).subrange(0, n) =~= p);
    assert((q + s).subrange(0, n) =~= q);
    assert((p + r).subrange(n, (p + r).len() as int) =~= r);
    assert((q + s).subrange(n, (q + s).len() as int) =~= s);
}

/// The encoding of a number tells where it ends.
pub proof fn lemma_number_delimits(x: usize, y: usize, r: Seq<u8>, s: Seq<u8>)
    requires
        number_bytes(x) + r == number_bytes(y) + s,
    ensures
        x == y,
        r == s,
{
    lemma_auto_spec_u64_to_from_le_bytes();
    lemma_split(number_bytes(x), r, number_bytes(y), s);
    assert(spec_u64_from_le_bytes(spec_u64_to_le_bytes(x as u64)) == x as u64);
    assert(spec_u64_from_le_bytes(spec_u64_to_le_bytes(y as u64)) == y as u64);
}

/// The encoding of a 64-bit handle tells where it ends.
pub proof fn lemma_handle_delimits(x: u64, y: u64, r: Seq<u8>, s: Seq<u8>)
    requires
        spec_u64_to_le_bytes(x) + r == spec_u64_to_le_bytes(y) + s,
    ensures
        x == y,
        r == s,
{
    lemma_auto_spec_u64_to_from_le_bytes();
    lemma_split(spec_u64_to_le_bytes(x), r, spec_u64_to_le_bytes(y), s);
    assert(spec_u64_from_le_bytes(spec_u64_to_le_bytes(x)) == x);
    assert(spec_u64_from_le_bytes(spec_u64_to_le_bytes(y)) == y);
}

/// The encoding of a string tells where it ends.
pub proof fn lemma_str_delimits(x: Seq<char>, y: Seq<char>, r: Seq<u8>, s: Seq<u8>)
    requires
        str_fits(x),
        str_fits(y),
        str_bytes(x) + r == str_bytes(y) + s,
    ensures
        x == y,
        r == s,
{
    let bx = encode_utf8(x);
    let by = encode_utf8(y);
    assert(str_bytes(x) + r =~= number_bytes(bx.len() as usize) + (bx + r));
    assert(str_bytes(y) + s =~= number_bytes(by.len() as usize) + (by + s));
    lemma_number_delimits(bx.len() as usize, by.len() as usize, bx + r, by + s);
    lemma_split(bx, r, by, s);
    encode_utf8_decode_utf8(x);
    encode_utf8_decode_utf8(y);
}

/// A list begins with the encoding of its first item.
pub proof fn lemma_joined_first<T>(list: Seq<T>, encode: spec_fn(T) -> Seq<u8>)
    requires
        list.len() > 0,
    ensures
        joined(list, encode) == encode(list[0]) + joined(list.drop_first(), encode),
    decreases list.len(),
{
    if list.len() == 1 {
        assert(list.drop_last() =~= Seq::<T>::empty());
        assert(list.drop_first() =~= Seq::<T>::empty());
        assert(joined(list, encode) =~= encode(list[0]) + joined(list.drop_first(), encode));
    } else {
        let front = list.drop_last();
        lemma_joined_first(front, encode);
        assert(front.drop_first() =~= list.drop_first().drop_last());
        assert(list.drop_first().last() == list.last());
        assert(joined(list, encode) =~= encode(list[0]) + joined(list.drop_first(), encode));
    }
}

/// The encodings of two lists of the same length, one item after the
/// other, are the same bytes only if the lists are the same.
pub proof fn lemma_joined_delimits<T>(
    a: Seq<T>,
    b: Seq<T>,
    r: Seq<u8>,
    s: Seq<u8>,
    encode: spec_fn(T) -> Seq<u8>,
    fits: spec_fn(T) -> bool,
)
    requires
        forall|x: T, y: T, t: Seq<u8>, u: Seq<u8>| #[trigger] delimits(encode, fits, x, y, t, u),
        a.len() == b.len(),
        forall|i: int| 0 <= i < a.len() ==> fits(#[trigger] a[i]),
        forall|i: int| 0 <= i < b.len() ==> fits(#[trigger] b[i]),
        joined(a, encode) + r == joined(b, encode) + s,
    ensures
        a == b,
        r == s,
    decreases a.len(),
{
    if a.len() == 0 {
        assert(joined(a, encode) + r =~= r);
        assert(joined(b, encode) + s =~= s);
        assert(a =~= b);
    } else {
        lemma_joined_first(a, encode);
        lemma_joined_first(b, encode);
        let ra = joined(a.drop_first(), encode) + r;
        let rb = joined(b.drop_first(), encode) + s;
        assert(joined(a, encode) + r =~= encode(a[0]) + ra);
        assert(joined(b, encode) + s =~= encode(b[0]) + rb);
        assert(fits(a[0]) && fits(b[0]));
        assert(delimits(encode, fits, a[0], b[0], ra, rb));
        assert forall|i: int| 0 <= i < a.drop_first().len() implies fits(
            #[trigger] a.drop_first()[i],
        ) by {
            assert(a.drop_first()[i] == a[i + 1]);
        }
        assert forall|i: int| 0 <= i < b.drop_first().len() implies fits(
            #[trigger] b.drop_first()[i],
        ) by {
            assert(b.drop_first()[i] == b[i + 1]);
        }
        lemma_joined_delimits(a.drop_first(), b.drop_first(), r, s, encode, fits);
        assert(a =~= seq![a[0]] + a.drop_first());
        assert(b =~= seq![b[0]] + b.drop_first());
    }
}

/// The encoding of a list tells where it ends, if that of its items does.
pub proof fn lemma_list_delimits<T>(
    a: Seq<T>,
    b: Seq<T>,
    r: Seq<u8>,
    s: Seq<u8>,
    encode: spec_fn(T) -> Seq<u8>,
    fits: spec_fn(T) -> bool,
)
    requires
        forall|x: T, y: T, t: Seq<u8>, u: Seq<u8>| #[trigger] delimits(encode, fits, x, y, t, u),
        list_fits(a, fits),
        list_fits(b, fits),
        list_bytes(a, encode) + r == list_bytes(b, encode) + s,
    ensures
        a == b,
        r == s,
{
    let ra = joined(a, encode) + r;
    let rb = joined(b, encode) + s;
    assert(list_bytes(a, encode) + r =~= number_bytes(a.len() as usize) + ra);
    assert(list_bytes(b, encode) + s =~= number_bytes(b.len() as usize) + rb);
    lemma_number_delimits(a.len() as usize, b.len() as usize, ra, rb);
    lemma_joined_delimits(a, b, r, s, encode, fits);
}

/// Sequences that begin with different bytes are different, and of
/// sequences that begin with the same byte the rests are equal if the
/// sequences are.
pub proof fn lemma_first_byte(x: u8, p: Seq<u8>, y: u8, q: Seq<u8>)
    requires
        seq![x] + p == seq![y] + q,
    ensures
        x == y,
        p == q,
{
    lemma_split(seq![x], p, seq![y], q);
    assert(seq![x][0] == seq![y][0]);
}

/// The encoding of an inverse filter tells where it ends.
pub proof fn lemma_not_filter_delimits(x: NotEventFilter, y: NotEventFilter, r: Seq<u8>, s: Seq<u8>)
    requires
        x.hash_bytes() + r == y.hash_bytes() + s,
    ensures
        x == y,
        r == s,
{
    let bx = x.hash_bytes();
    let by = y.hash_bytes();
    assert(bx.len() == 2 && by.len() == 2);
    lemma_split(bx, r, by, s);
    assert(bx[0] == by[0]);
    assert(bx[1] == by[1]);
}

/// The encoding of a filter tells where it ends.
pub proof fn lemma_filter_delimits(x: EventFilter, y: EventFilter, r: Seq<u8>, s: Seq<u8>)
    requires
        x.hash_bytes() + r == y.hash_bytes() + s,
    ensures
        x == y,
        r == s,
{
    let bx = x.hash_bytes();
    let by = y.hash_bytes();
    assert((bx + r)[0] == (by + s)[0]);
    assert((bx + r)[0] == bx[0]);
    assert((by + s)[0] == by[0]);
    match (x, y) {
        (EventFilter::Not(a), EventFilter::Not(b)) => {
            assert(bx + r =~= seq![1u8] + (a.hash_bytes() + r));
            assert(by + s =~= seq![1u8] + (b.hash_bytes() + s));
            lemma_first_byte(1u8, a.hash_bytes() + r, 1u8, b.hash_bytes() + s);
            lemma_not_filter_delimits(a, b, r, s);
        },
        _ => {
            assert(bx.len() == 2 && by.len() == 2);
            lemma_split(bx, r, by, s);
            assert(bx[1] == by[1]);
        },
    }
}

/// The encoding of a tab index tells where it ends.
pub proof fn lemma_tab_index_delimits(x: TabIndex, y: TabIndex, r: Seq<u8>, s: Seq<u8>)
    requires
        x.hash_bytes() + r == y.hash_bytes() + s,
    ensures
        x == y,
        r == s,
{
    let bx = x.hash_bytes();
    let by = y.hash_bytes();
    assert((bx + r)[0] == bx[0]);
    assert((by + s)[0] == by[0]);
    match (x, y) {
        (TabIndex::Auto, TabIndex::Auto) => {
            lemma_split(bx, r, by, s);
        },
        (TabIndex::OverrideInParent(a), TabIndex::OverrideInParent(b)) => {
            assert(bx + r =~= seq![1u8] + (number_bytes(a) + r));
            assert(by + s =~= seq![1u8] + (number_bytes(b) + s));
            lemma_first_byte(1u8, number_bytes(a) + r, 1u8, number_bytes(b) + s);
            lemma_number_delimits(a, b, r, s);
        },
        (TabIndex::Global(a), TabIndex::Global(b)) => {
            assert(bx + r =~= seq![2u8] + (number_bytes(a) + r));
            assert(by + s =~= seq![2u8] + (number_bytes(b) + s));
            lemma_first_byte(2u8, number_bytes(a) + r, 2u8, number_bytes(b) + s);
            lemma_number_delimits(a, b, r, s);
        },
        _ => {},
    }
}

/// The encoding of two numbers, one after the other, tells where it ends.
proof fn lemma_two_numbers_delimit(
    a1: usize,
    a2: usize,
    b1: usize,
    b2: usize,
    r: Seq<u8>,
    s: Seq<u8>,
)
    requires
        number_bytes(a1) + number_bytes(a2) + r == number_bytes(b1) + number_bytes(b2) + s,
    ensures
        a1 == b1,
        a2 == b2,
        r == s,
{
    assert(number_bytes(a1) + number_bytes(a2) + r =~= number_bytes(a1) + (number_bytes(a2) + r));
    assert(number_bytes(b1) + number_bytes(b2) + s =~= number_bytes(b1) + (number_bytes(b2) + s));
    lemma_number_delimits(a1, b1, number_bytes(a2) + r, number_bytes(b2) + s);
    lemma_number_delimits(a2, b2, r, s);
}

/// The encoding of an element kind tells where it ends.
pub proof fn lemma_node_type_delimits(x: NodeTypeView, y: NodeTypeView, r: Seq<u8>, s: Seq<u8>)
    requires
        x matches NodeTypeView::Label(text) ==> str_fits(text),
        y matches NodeTypeView::Label(text) ==> str_fits(text),
        x.hash_bytes() + r == y.hash_bytes() + s,
    ensures
        x == y,
        r == s,
{
    let bx = x.hash_bytes();
    let by = y.hash_bytes();
    assert((bx + r)[0] == bx[0]);
    assert((by + s)[0] == by[0]);
    match (x, y) {
        (NodeTypeView::Div, NodeTypeView::Div) => {
            lemma_split(bx, r, by, s);
        },
        (NodeTypeView::Label(a), NodeTypeView::Label(b)) => {
            assert(bx + r =~= seq![1u8] + (str_bytes(a) + r));
            assert(by + s =~= seq![1u8] + (str_bytes(b) + s));
            lemma_first_byte(1u8, str_bytes(a) + r, 1u8, str_bytes(b) + s);
            lemma_str_delimits(a, b, r, s);
        },
        (NodeTypeView::Text(a), NodeTypeView::Text(b)) => {
            assert(bx + r =~= seq![2u8] + (number_bytes(a.0) + r));
            assert(by + s =~= seq![2u8] + (number_bytes(b.0) + s));
            lemma_first_byte(2u8, number_bytes(a.0) + r, 2u8, number_bytes(b.0) + s);
            lemma_number_delimits(a.0, b.0, r, s);
        },
        (NodeTypeView::Image(a), NodeTypeView::Image(b)) => {
            assert(bx + r =~= seq![3u8] + (number_bytes(a.0) + r));
            assert(by + s =~= seq![3u8] + (number_bytes(b.0) + s));
            lemma_first_byte(3u8, number_bytes(a.0) + r, 3u8, number_bytes(b.0) + s);
            lemma_number_delimits(a.0, b.0, r, s);
        },
        (NodeTypeView::GlTexture(a, p), NodeTypeView::GlTexture(b, q)) => {
            let ta = number_bytes(a.0) + number_bytes(p.0) + r;
            let tb = number_bytes(b.0) + number_bytes(q.0) + s;
            assert(bx + r =~= seq![4u8] + ta);
            assert(by + s =~= seq![4u8] + tb);
            lemma_first_byte(4u8, ta, 4u8, tb);
            lemma_two_numbers_delimit(a.0, p.0, b.0, q.0, r, s);
        },
        (NodeTypeView::IFrame(a, p), NodeTypeView::IFrame(b, q)) => {
            let ta = number_bytes(a.0) + number_bytes(p.0) + r;
            let tb = number_bytes(b.0) + number_bytes(q.0) + s;
            assert(bx + r =~= seq![5u8] + ta);
            assert(by + s =~= seq![5u8] + tb);
            lemma_first_byte(5u8, ta, 5u8, tb);
            lemma_two_numbers_delimit(a.0, p.0, b.0, q.0, r, s);
        },
        _ => {},
    }
}

/// The encoding of a callback of a list tells where it ends.
pub proof fn lemma_callback_delimits(
    x: (EventFilter, Callback),
    y: (EventFilter, Callback),
    r: Seq<u8>,
    s: Seq<u8>,
)
    ensures
        delimits(callback_encoder(), callback_fitting(), x, y, r, s),
{
    let encode = callback_encoder();
    if encode(x) + r == encode(y) + s {
        assert(encode(x) + r =~= x.0.hash_bytes() + (number_bytes(x.1.0) + r));
        assert(encode(y) + s =~= y.0.hash_bytes() + (number_bytes(y.1.0) + s));
        lemma_filter_delimits(x.0, y.0, number_bytes(x.1.0) + r, number_bytes(y.1.0) + s);
        lemma_number_delimits(x.1.0, y.1.0, r, s);
    }
}

/// The encoding of a default callback of a list tells where it ends.
pub proof fn lemma_default_callback_delimits(
    x: (EventFilter, DefaultCallbackId),
    y: (EventFilter, DefaultCallbackId),
    r: Seq<u8>,
    s: Seq<u8>,
)
    ensures
        delimits(default_callback_encoder(), default_callback_fitting(), x, y, r, s),
{
    let encode = default_callback_encoder();
    if encode(x) + r == encode(y) + s {
        assert(encode(x) + r =~= x.0.hash_bytes() + (number_bytes(x.1.0) + r));
        assert(encode(y) + s =~= y.0.hash_bytes() + (number_bytes(y.1.0) + s));
        lemma_filter_delimits(x.0, y.0, number_bytes(x.1.0) + r, number_bytes(y.1.0) + s);
        lemma_number_delimits(x.1.0, y.1.0, r, s);
    }
}

/// The encoding of a style override of a list tells where it ends.
pub proof fn lemma_override_delimits(
    x: (Seq<char>, CssProperty),
    y: (Seq<char>, CssProperty),
    r: Seq<u8>,
    s: Seq<u8>,
)
    ensures
        delimits(override_encoder(), override_fitting(), x, y, r, s),
{
    let encode = override_encoder();
    let fits = override_fitting();
    if fits(x) && fits(y) && encode(x) + r == encode(y) + s {
        assert(encode(x) + r =~= str_bytes(x.0) + (spec_u64_to_le_bytes(x.1.0) + r));
        assert(encode(y) + s =~= str_bytes(y.0) + (spec_u64_to_le_bytes(y.1.0) + s));
        lemma_str_delimits(
            x.0,
            y.0,
            spec_u64_to_le_bytes(x.1.0) + r,
            spec_u64_to_le_bytes(y.1.0) + s,
        );
        lemma_handle_delimits(x.1.0, y.1.0, r, s);
    }
}

/// The encoding of a string of a list tells where it ends.
pub proof fn lemma_name_delimits(x: Seq<char>, y: Seq<char>, r: Seq<u8>, s: Seq<u8>)
    ensures
        delimits(str_encoder(), str_fitting(), x, y, r, s),
{
    let encode = str_encoder();
    let fits = str_fitting();
    if fits(x) && fits(y) && encode(x) + r == encode(y) + s {
        lemma_str_delimits(x, y, r, s);
    }
}

/// Equal ends of the encoding come from equal flags and tab indices.
proof fn lemma_flags_delimit(a: NodeDataView, b: NodeDataView)
    requires
        a.draggable_part() == b.draggable_part(),
    ensures
        a.draggable == b.draggable,
        a.tab_index == b.tab_index,
{
    let da = seq![if a.draggable { 1u8 } else { 0u8 }];
    let db = seq![if b.draggable { 1u8 } else { 0u8 }];
    lemma_split(da, a.tab_index_part(), db, b.tab_index_part());
    assert(da[0] == db[0]);
    assert(a.tab_index_part()[0] == b.tab_index_part()[0]);
    match (a.tab_index, b.tab_index) {
        (Some(x), Some(y)) => {
            lemma_first_byte(1u8, x.hash_bytes(), 1u8, y.hash_bytes());
            assert(x.hash_bytes() + Seq::<u8>::empty() =~= x.hash_bytes());
            assert(y.hash_bytes() + Seq::<u8>::empty() =~= y.hash_bytes());
            lemma_tab_index_delimits(x, y, Seq::empty(), Seq::empty());
        },
        _ => {},
    }
}

/// Equal encodings from the style overrides on come from equal overrides.
proof fn lemma_overrides_part_delimits(a: NodeDataView, b: NodeDataView)
    requires
        a.fits(),
        b.fits(),
        a.overrides_part() == b.overrides_part(),
    ensures
        a.dynamic_css_overrides == b.dynamic_css_overrides,
        a.draggable_part() == b.draggable_part(),
{
    assert forall|x: (Seq<char>, CssProperty), y: (Seq<char>, CssProperty), t: Seq<u8>, u: Seq<u8>| #[trigger]
        delimits(override_encoder(), override_fitting(), x, y, t, u) by {
        lemma_override_delimits(x, y, t, u);
    }
    lemma_list_delimits(
        a.dynamic_css_overrides,
        b.dynamic_css_overrides,
        a.draggable_part(),
        b.draggable_part(),
        override_encoder(),
        override_fitting(),
    );
}

/// Equal encodings from the default callbacks on come from equal default
/// callbacks.
proof fn lemma_default_callbacks_part_delimits(a: NodeDataView, b: NodeDataView)
    requires
        a.fits(),
        b.fits(),
        a.default_callbacks_part() == b.default_callbacks_part(),
    ensures
        a.default_callback_ids == b.default_callback_ids,
        a.overrides_part() == b.overrides_part(),
{
    assert forall|
        x: (EventFilter, DefaultCallbackId),
        y: (EventFilter, DefaultCallbackId),
        t: Seq<u8>,
        u: Seq<u8>,
    | #[trigger]
        delimits(default_callback_encoder(), default_callback_fitting(), x, y, t, u) by {
        lemma_default_callback_delimits(x, y, t, u);
    }
    lemma_list_delimits(
        a.default_callback_ids,
        b.default_callback_ids,
        a.overrides_part(),
        b.overrides_part(),
        default_callback_encoder(),
        default_callback_fitting(),
    );
}

/// Equal encodings from the callbacks on come from equal callbacks.
proof fn lemma_callbacks_part_delimits(a: NodeDataView, b: NodeDataView)
    requires
        a.fits(),
        b.fits(),
        a.callbacks_part() == b.callbacks_part(),
    ensures
        a.callbacks == b.callbacks,
        a.default_callbacks_part() == b.default_callbacks_part(),
{
    assert forall|x: (EventFilter, Callback), y: (EventFilter, Callback), t: Seq<u8>, u: Seq<u8>| #[trigger]
        delimits(callback_encoder(), callback_fitting(), x, y, t, u) by {
        lemma_callback_delimits(x, y, t, u);
    }
    lemma_list_delimits(
        a.callbacks,
        b.callbacks,
        a.default_callbacks_part(),
        b.default_callbacks_part(),
        callback_encoder(),
        callback_fitting(),
    );
}

/// Equal encodings from the ids on come from equal ids and classes.
proof fn lemma_names_part_delimits(a: NodeDataView, b: NodeDataView)
    requires
        a.fits(),
        b.fits(),
        a.ids_part() == b.ids_part(),
    ensures
        a.ids == b.ids,
        a.classes == b.classes,
        a.callbacks_part() == b.callbacks_part(),
{
    assert forall|x: Seq<char>, y: Seq<char>, t: Seq<u8>, u: Seq<u8>| #[trigger]
        delimits(str_encoder(), str_fitting(), x, y, t, u) by {
        lemma_name_delimits(x, y, t, u);
    }
    lemma_list_delimits(
        a.ids,
        b.ids,
        a.classes_part(),
        b.classes_part(),
        str_encoder(),
        str_fitting(),
    );
    lemma_list_delimits(
        a.classes,
        b.classes,
        a.callbacks_part(),
        b.callbacks_part(),
        str_encoder(),
        str_fitting(),
    );
}

/// The encoding from which the hash of a node is computed is different for
/// different payloads: two payloads with the same encoding are the same.
pub proof fn lemma_encoding_is_injective(a: NodeDataView, b: NodeDataView)
    requires
        a.fits(),
        b.fits(),
        a.hash_bytes() == b.hash_bytes(),
    ensures
        a == b,
{
    lemma_node_type_delimits(a.node_type, b.node_type, a.ids_part(), b.ids_part());
    lemma_names_part_delimits(a, b);
    lemma_callbacks_part_delimits(a, b);
    lemma_default_callbacks_part_delimits(a, b);
    lemma_overrides_part_delimits(a, b);
    lemma_flags_delimit(a, b);
}

} // verus!
