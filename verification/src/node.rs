//! The payload of one node of the document: its element kind, identity
//! (ids and classes), attached callbacks, style overrides and focus / drag
//! metadata.

use vstd::prelude::*;
use vstd::std_specs::cmp::PartialEqSpecImpl;
use vstd::string::StringExecFns;
use vstd::utf8::{encode_utf8, encode_utf8_decode_utf8};
use crate::events::{EventFilter, TabIndex};

verus! {

/// Handle of a callback that runs when the element it is attached to is hit.
/// Two handles are the same callback exactly if their identifiers are equal.
#[derive(Debug, Copy, Clone, PartialEq, Eq, Structural, Hash)]
pub struct Callback(pub usize);

/// Handle of a callback that renders an OpenGL texture, compared by identity.
#[derive(Debug, Copy, Clone, PartialEq, Eq, Structural, Hash)]
pub struct GlTextureCallback(pub usize);

/// Handle of a callback that builds the document of an inline frame,
/// compared by identity.
#[derive(Debug, Copy, Clone, PartialEq, Eq, Structural, Hash)]
pub struct IFrameCallback(pub usize);

/// Handle of a default callback, issued by the application state.
#[derive(Debug, Copy, Clone, PartialEq, Eq, Structural, Hash)]
pub struct DefaultCallbackId(pub usize);

/// Identity of the context that a render or frame callback is called with.
#[derive(Debug, Copy, Clone, PartialEq, Eq, Structural, Hash)]
pub struct StackCheckedPointer(pub usize);

/// Handle of a cached text.
#[derive(Debug, Copy, Clone, PartialEq, Eq, Structural, Hash)]
pub struct TextId(pub usize);

/// Handle of a cached image.
#[derive(Debug, Copy, Clone, PartialEq, Eq, Structural, Hash)]
pub struct ImageId(pub usize);

/// Handle of a style property value. The document never looks inside.
#[derive(Debug, Copy, Clone, PartialEq, Eq, Structural, Hash)]
pub struct CssProperty(pub u64);

/// The element kinds.
#[derive(Debug)]
pub enum NodeType {
    /// Regular div with no particular type of data attached
    Div,
    /// A small label
    Label(String),
    /// Larger amount of text, which is cached
    Text(TextId),
    /// An image
    Image(ImageId),
    /// OpenGL texture, rendered by a callback
    GlTexture((GlTextureCallback, StackCheckedPointer)),
    /// Document that is built during layout, when its size is known
    IFrame((IFrameCallback, StackCheckedPointer)),
}

/// Mathematical value of a `NodeType`.
pub enum NodeTypeView {
    Div,
    Label(Seq<char>),
    Text(TextId),
    Image(ImageId),
    GlTexture(GlTextureCallback, StackCheckedPointer),
    IFrame(IFrameCallback, StackCheckedPointer),
}

impl View for NodeType {
    type V = NodeTypeView;

    open spec fn view(&self) -> NodeTypeView {
        match *self {
            NodeType::Div => NodeTypeView::Div,
            NodeType::Label(s) => NodeTypeView::Label(s@),
            NodeType::Text(t) => NodeTypeView::Text(t),
            NodeType::Image(i) => NodeTypeView::Image(i),
            NodeType::GlTexture(c) => NodeTypeView::GlTexture(c.0, c.1),
            NodeType::IFrame(c) => NodeTypeView::IFrame(c.0, c.1),
        }
    }
}

/// One node of the document.
#[derive(Debug)]
pub struct NodeData {
    /// The element kind
    pub node_type: NodeType,
    /// `#main #something`
    pub ids: Vec<String>,
    /// `.myclass .otherclass`
    pub classes: Vec<String>,
    /// `On::MouseUp` -> `Callback(my_button_click_handler)`
    pub callbacks: Vec<(EventFilter, Callback)>,
    /// The default callbacks that are attached to this node
    pub default_callback_ids: Vec<(EventFilter, DefaultCallbackId)>,
    /// Style properties that are overridden for this node, by name
    pub dynamic_css_overrides: Vec<(String, CssProperty)>,
    /// Whether this node can be dragged
    pub draggable: bool,
    /// Whether this node can be focused, and in which order
    pub tab_index: Option<TabIndex>,
}

/// Mathematical value of a `NodeData`.
pub struct NodeDataView {
    pub node_type: NodeTypeView,
    pub ids: Seq<Seq<char>>,
    pub classes: Seq<Seq<char>>,
    pub callbacks: Seq<(EventFilter, Callback)>,
    pub default_callback_ids: Seq<(EventFilter, DefaultCallbackId)>,
    pub dynamic_css_overrides: Seq<(Seq<char>, CssProperty)>,
    pub draggable: bool,
    pub tab_index: Option<TabIndex>,
}

/// The strings of `v` as character sequences.
pub open spec fn names(v: Seq<String>) -> Seq<Seq<char>> {
    Seq::new(v.len(), |i: int| v[i]@)
}

/// The overrides of `v` with their names as character sequences.
pub open spec fn overrides(v: Seq<(String, CssProperty)>) -> Seq<(Seq<char>, CssProperty)> {
    Seq::new(v.len(), |i: int| (v[i].0@, v[i].1))
}

impl View for NodeData {
    type V = NodeDataView;

    open spec fn view(&self) -> NodeDataView {
        NodeDataView {
            node_type: self.node_type@,
            ids: names(self.ids@),
            classes: names(self.classes@),
            callbacks: self.callbacks@,
            default_callback_ids: self.default_callback_ids@,
            dynamic_css_overrides: overrides(self.dynamic_css_overrides@),
            draggable: self.draggable,
            tab_index: self.tab_index,
        }
    }
}

impl NodeDataView {
    /// The payload of a node of kind `node_type` to which nothing was added.
    pub open spec fn bare(node_type: NodeTypeView) -> NodeDataView {
        NodeDataView {
            node_type,
            ids: Seq::empty(),
            classes: Seq::empty(),
            callbacks: Seq::empty(),
            default_callback_ids: Seq::empty(),
            dynamic_css_overrides: Seq::empty(),
            draggable: false,
            tab_index: None,
        }
    }
}

impl Default for NodeData {
    /// A div to which nothing was added.
    fn default() -> (data: NodeData)
        ensures
            data@ == NodeDataView::bare(NodeTypeView::Div),
    {
        NodeData::new(NodeType::Div)
    }
}

impl NodeData {
    /// A node of kind `node_type` without ids, classes, callbacks or
    /// overrides, neither draggable nor focusable.
    pub fn new(node_type: NodeType) -> (data: NodeData)
        ensures
            data@ == NodeDataView::bare(node_type@),
    {
        let data = NodeData {
            node_type,
            ids: Vec::new(),
            classes: Vec::new(),
            callbacks: Vec::new(),
            default_callback_ids: Vec::new(),
            dynamic_css_overrides: Vec::new(),
            draggable: false,
            tab_index: None,
        };
        assert(data@.ids =~= Seq::empty());
        assert(data@.classes =~= Seq::empty());
        assert(data@.dynamic_css_overrides =~= Seq::empty());
        data
    }
}

/// The values of the payloads in `nodes`, slot by slot.
pub open spec fn payloads(nodes: Seq<NodeData>) -> Seq<NodeDataView> {
    Seq::new(nodes.len(), |i: int| nodes[i]@)
}

/// A copy of a list of strings.
fn clone_names(source: &Vec<String>) -> (copy: Vec<String>)
    ensures
        names(copy@) == names(source@),
{
    let mut copy: Vec<String> = Vec::with_capacity(source.len());
    let mut i: usize = 0;
    while i < source.len()
        invariant
            0 <= i <= source@.len(),
            copy@.len() == i,
            forall|j: int| 0 <= j < i ==> (#[trigger] copy@[j])@ == source@[j]@,
        decreases source@.len() - i,
    {
        copy.push(source[i].clone());
        i += 1;
    }
    assert(names(copy@) =~= names(source@));
    copy
}

/// A copy of a list of style overrides.
pub(crate) fn clone_overrides(source: &Vec<(String, CssProperty)>) -> (copy: Vec<(String, CssProperty)>)
    ensures
        overrides(copy@) == overrides(source@),
{
    let mut copy: Vec<(String, CssProperty)> = Vec::with_capacity(source.len());
    let mut i: usize = 0;
    while i < source.len()
        invariant
            0 <= i <= source@.len(),
            copy@.len() == i,
            forall|j: int|
                0 <= j < i ==> (#[trigger] copy@[j]).0@ == source@[j].0@ && copy@[j].1 == source@[j].1,
        decreases source@.len() - i,
    {
        copy.push((source[i].0.clone(), source[i].1));
        i += 1;
    }
    assert(overrides(copy@) =~= overrides(source@));
    copy
}

/// Whether two strings are the same.
pub fn str_equal(a: &str, b: &str) -> (equal: bool)
    ensures
        equal == (a@ == b@),
{
    let x = a.as_bytes();
    let y = b.as_bytes();
    if x.len() != y.len() {
        return false;
    }
    let mut i: usize = 0;
    while i < x.len()
        invariant
            0 <= i <= x@.len(),
            x@.len() == y@.len(),
            x@ == encode_utf8(a@),
            y@ == encode_utf8(b@),
            forall|j: int| 0 <= j < i ==> x@[j] == y@[j],
        decreases x@.len() - i,
    {
        if x[i] != y[i] {
            return false;
        }
        i += 1;
    }
    proof {
        assert(x@ =~= y@);
        encode_utf8_decode_utf8(a@);
        encode_utf8_decode_utf8(b@);
    }
    true
}

/// Whether two lists of strings are the same.
fn names_equal(a: &Vec<String>, b: &Vec<String>) -> (equal: bool)
    ensures
        equal == (names(a@) == names(b@)),
{
    if a.len() != b.len() {
        assert(names(a@).len() != names(b@).len());
        return false;
    }
    let mut i: usize = 0;
    while i < a.len()
        invariant
            0 <= i <= a@.len(),
            a@.len() == b@.len(),
            forall|j: int| 0 <= j < i ==> a@[j]@ == b@[j]@,
        decreases a@.len() - i,
    {
        if !str_equal(a[i].as_str(), b[i].as_str()) {
            assert(names(a@)[i as int] != names(b@)[i as int]);
            return false;
        }
        i += 1;
    }
    assert(names(a@) =~= names(b@));
    true
}

/// Whether two lists of callbacks are the same.
fn callbacks_equal(a: &Vec<(EventFilter, Callback)>, b: &Vec<(EventFilter, Callback)>) -> (equal:
    bool)
    ensures
        equal == (a@ == b@),
{
    if a.len() != b.len() {
        return false;
    }
    let mut i: usize = 0;
    while i < a.len()
        invariant
            0 <= i <= a@.len(),
            a@.len() == b@.len(),
            forall|j: int| 0 <= j < i ==> a@[j] == b@[j],
        decreases a@.len() - i,
    {
        if !(a[i].0 == b[i].0 && a[i].1 == b[i].1) {
            return false;
        }
        i += 1;
    }
    assert(a@ =~= b@);
    true
}

/// Whether two lists of default callbacks are the same.
fn default_callbacks_equal(
    a: &Vec<(EventFilter, DefaultCallbackId)>,
    b: &Vec<(EventFilter, DefaultCallbackId)>,
) -> (equal: bool)
    ensures
        equal == (a@ == b@),
{
    if a.len() != b.len() {
        return false;
    }
    let mut i: usize = 0;
    while i < a.len()
        invariant
            0 <= i <= a@.len(),
            a@.len() == b@.len(),
            forall|j: int| 0 <= j < i ==> a@[j] == b@[j],
        decreases a@.len() - i,
    {
        if !(a[i].0 == b[i].0 && a[i].1 == b[i].1) {
            return false;
        }
        i += 1;
    }
    assert(a@ =~= b@);
    true
}

/// Whether two lists of style overrides are the same.
fn overrides_equal(a: &Vec<(String, CssProperty)>, b: &Vec<(String, CssProperty)>) -> (equal:
    bool)
    ensures
        equal == (overrides(a@) == overrides(b@)),
{
    if a.len() != b.len() {
        assert(overrides(a@).len() != overrides(b@).len());
        return false;
    }
    let mut i: usize = 0;
    while i < a.len()
        invariant
            0 <= i <= a@.len(),
            a@.len() == b@.len(),
            forall|j: int| 0 <= j < i ==> a@[j].0@ == b@[j].0@ && a@[j].1 == b@[j].1,
        decreases a@.len() - i,
    {
        if !(str_equal(a[i].0.as_str(), b[i].0.as_str()) && a[i].1 == b[i].1) {
            assert(overrides(a@)[i as int] != overrides(b@)[i as int]);
            return false;
        }
        i += 1;
    }
    assert(overrides(a@) =~= overrides(b@));
    true
}

impl PartialEqSpecImpl for NodeType {
    open spec fn obeys_eq_spec() -> bool {
        true
    }

    open spec fn eq_spec(&self, rhs: &NodeType) -> bool {
        self@ == rhs@
    }
}

/// Two element kinds are equal if they are the same kind and hold the same
/// text or handles. Callbacks and contexts are compared by identity.
impl PartialEq for NodeType {
    fn eq(&self, rhs: &NodeType) -> (equal: bool) {
        match (self, rhs) {
            (NodeType::Div, NodeType::Div) => true,
            (NodeType::Label(a), NodeType::Label(b)) => str_equal(a.as_str(), b.as_str()),
            (NodeType::Text(a), NodeType::Text(b)) => *a == *b,
            (NodeType::Image(a), NodeType::Image(b)) => *a == *b,
            (NodeType::GlTexture((ptr_a, a)), NodeType::GlTexture((ptr_b, b))) => {
                *a == *b && *ptr_a == *ptr_b
            },
            (NodeType::IFrame((ptr_a, a)), NodeType::IFrame((ptr_b, b))) => {
                *a == *b && *ptr_a == *ptr_b
            },
            _ => false,
        }
    }
}

impl Eq for NodeType {

}

impl Clone for NodeType {
    fn clone(&self) -> (copy: NodeType)
        ensures
            copy@ == self@,
    {
        match self {
            NodeType::Div => NodeType::Div,
            NodeType::Label(a) => NodeType::Label(a.clone()),
            NodeType::Text(a) => NodeType::Text(*a),
            NodeType::Image(a) => NodeType::Image(*a),
            NodeType::GlTexture((ptr, a)) => NodeType::GlTexture((*ptr, *a)),
            NodeType::IFrame((ptr, a)) => NodeType::IFrame((*ptr, *a)),
        }
    }
}

impl PartialEqSpecImpl for NodeData {
    open spec fn obeys_eq_spec() -> bool {
        true
    }

    open spec fn eq_spec(&self, other: &NodeData) -> bool {
        self@ == other@
    }
}

/// Two payloads are equal if all they hold is equal, in the same order.
impl PartialEq for NodeData {
    fn eq(&self, other: &NodeData) -> (equal: bool) {
        let tab_index_equal = match (self.tab_index, other.tab_index) {
            (Some(a), Some(b)) => a == b,
            (None, None) => true,
            _ => false,
        };
        self.node_type == other.node_type && names_equal(&self.ids, &other.ids) && names_equal(
            &self.classes,
            &other.classes,
        ) && callbacks_equal(&self.callbacks, &other.callbacks) && default_callbacks_equal(
            &self.default_callback_ids,
            &other.default_callback_ids,
        ) && overrides_equal(&self.dynamic_css_overrides, &other.dynamic_css_overrides)
            && self.draggable == other.draggable && tab_index_equal
    }
}

impl Eq for NodeData {

}

impl Clone for NodeData {
    fn clone(&self) -> (copy: NodeData)
        ensures
            copy@ == self@,
    {
        let copy = NodeData {
            node_type: self.node_type.clone(),
            ids: clone_names(&self.ids),
            classes: clone_names(&self.classes),
            callbacks: clone_pairs(&self.callbacks),
            default_callback_ids: clone_pairs(&self.default_callback_ids),
            dynamic_css_overrides: clone_overrides(&self.dynamic_css_overrides),
            draggable: self.draggable,
            tab_index: self.tab_index,
        };
        copy
    }
}

/// A copy of a list of pairs of plain values.
fn clone_pairs<A: Copy, B: Copy>(source: &Vec<(A, B)>) -> (copy: Vec<(A, B)>)
    ensures
        copy@ == source@,
{
    let mut copy: Vec<(A, B)> = Vec::with_capacity(source.len());
    let mut i: usize = 0;
    while i < source.len()
        invariant
            0 <= i <= source@.len(),
            copy@ == source@.take(i as int),
        decreases source@.len() - i,
    {
        copy.push(source[i]);
        assert(source@.take(i + 1) =~= source@.take(i as int).push(source@[i as int]));
        i += 1;
    }
    assert(source@.take(i as int) =~= source@);
    copy
}

impl NodeData {
    /// Checks whether this node is of the given node type (div, image, text)
    pub fn is_node_type(&self, searched_type: NodeType) -> (found: bool)
        ensures
            found == (self@.node_type == searched_type@),
    {
        self.node_type == searched_type
    }

    /// Checks whether this node has the searched ID attached
    pub fn has_id(&self, id: &str) -> (found: bool)
        ensures
            found == self@.ids.contains(id@),
    {
        let found = contains_name(&self.ids, id);
        found
    }

    /// Checks whether this node has the searched class attached
    pub fn has_class(&self, class: &str) -> (found: bool)
        ensures
            found == self@.classes.contains(class@),
    {
        let found = contains_name(&self.classes, class);
        found
    }
}

/// Whether `name` is among the strings of `list`.
fn contains_name(list: &Vec<String>, name: &str) -> (found: bool)
    ensures
        found == names(list@).contains(name@),
{
    let mut i: usize = 0;
    while i < list.len()
        invariant
            0 <= i <= list@.len(),
            forall|j: int| 0 <= j < i ==> list@[j]@ != name@,
        decreases list@.len() - i,
    {
        if str_equal(list[i].as_str(), name) {
            assert(names(list@)[i as int] == name@);
            return true;
        }
        i += 1;
    }
    assert forall|j: int| 0 <= j < names(list@).len() implies names(list@)[j] != name@ by {
        assert(list@[j]@ != name@);
    }
    false
}

/// The name under which a style sheet addresses an element kind.
#[derive(Debug, Copy, Clone, PartialEq, Eq, Structural, Hash, PartialOrd, Ord)]
pub enum NodeTypePath {
    Div,
    P,
    Img,
    Texture,
    IFrame,
}

impl NodeTypePath {
    /// The name as it is written in a style sheet.
    pub open spec fn name(self) -> Seq<char> {
        match self {
            NodeTypePath::Div => "div"@,
            NodeTypePath::P => "p"@,
            NodeTypePath::Img => "img"@,
            NodeTypePath::Texture => "texture"@,
            NodeTypePath::IFrame => "iframe"@,
        }
    }

    /// The name as it is written in a style sheet.
    pub fn as_str(&self) -> (name: &'static str)
        ensures
            name@ == self.name(),
    {
        match self {
            NodeTypePath::Div => "div",
            NodeTypePath::P => "p",
            NodeTypePath::Img => "img",
            NodeTypePath::Texture => "texture",
            NodeTypePath::IFrame => "iframe",
        }
    }
}

impl NodeTypeView {
    /// The name under which a style sheet addresses this kind: labels and
    /// texts are both paragraphs.
    pub open spec fn path(self) -> NodeTypePath {
        match self {
            NodeTypeView::Div => NodeTypePath::Div,
            NodeTypeView::Label(_) => NodeTypePath::P,
            NodeTypeView::Text(_) => NodeTypePath::P,
            NodeTypeView::Image(_) => NodeTypePath::Img,
            NodeTypeView::GlTexture(_, _) => NodeTypePath::Texture,
            NodeTypeView::IFrame(_, _) => NodeTypePath::IFrame,
        }
    }
}

impl NodeType {
    /// The name under which a style sheet addresses this kind.
    pub fn get_path(&self) -> (path: NodeTypePath)
        ensures
            path == self@.path(),
    {
        match self {
            NodeType::Div => NodeTypePath::Div,
            NodeType::Label(_) | NodeType::Text(_) => NodeTypePath::P,
            NodeType::Image(_) => NodeTypePath::Img,
            NodeType::GlTexture(_) => NodeTypePath::Texture,
            NodeType::IFrame(_) => NodeTypePath::IFrame,
        }
    }
}

/// The strings of `list`, each behind `prefix`, with one space between them.
pub open spec fn prefixed(list: Seq<Seq<char>>, prefix: char) -> Seq<char>
    decreases list.len(),
{
    if list.len() == 0 {
        Seq::empty()
    } else if list.len() == 1 {
        seq![prefix] + list[0]
    } else {
        prefixed(list.drop_last(), prefix) + seq![' ', prefix] + list.last()
    }
}

impl NodeDataView {
    /// The node as one line of text: in square brackets the name of its
    /// kind, its ids behind `#` and its classes behind `.`, the three parts
    /// one space apart.
    pub open spec fn display(self) -> Seq<char> {
        seq!['['] + self.node_type.path().name() + seq![' '] + prefixed(self.ids, '#') + seq![' ']
            + prefixed(self.classes, '.') + seq![']']
    }
}

/// Writes the strings of `list` to `out`, each behind `prefix` (`sign` is
/// the prefix as a string, `spaced` the prefix behind a space).
fn write_prefixed(out: &mut String, list: &Vec<String>, prefix: char, sign: &str, spaced: &str)
    requires
        sign@ == seq![prefix],
        spaced@ == seq![' ', prefix],
    ensures
        final(out)@ == old(out)@ + prefixed(names(list@), prefix),
{
    let ghost items = names(list@);
    let mut i: usize = 0;
    while i < list.len()
        invariant
            0 <= i <= list@.len(),
            items == names(list@),
            sign@ == seq![prefix],
            spaced@ == seq![' ', prefix],
            out@ == old(out)@ + prefixed(items.take(i as int), prefix),
        decreases list@.len() - i,
    {
        proof {
            assert(items.take(i + 1).drop_last() =~= items.take(i as int));
            assert(items.take(i + 1).last() == list@[i as int]@);
            if i == 0 {
                assert(items.take(1)[0] == list@[0]@);
            }
        }
        let ghost before = out@;
        if i == 0 {
            out.append(sign);
        } else {
            out.append(spaced);
        }
        out.append(list[i].as_str());
        assert(out@ =~= old(out)@ + prefixed(items.take(i + 1), prefix));
        i += 1;
    }
    assert(items.take(i as int) =~= items);
}

impl NodeData {
    /// The node as one line of text, such as `[div #main .row .wide]`.
    pub fn to_string(&self) -> (text: String)
        ensures
            text@ == self@.display(),
    {
        proof {
            reveal_strlit("[");
            reveal_strlit(" ");
            reveal_strlit("]");
            reveal_strlit("#");
            reveal_strlit(" #");
            reveal_strlit(".");
            reveal_strlit(" .");
        }
        let mut text = String::new();
        text.append("[");
        text.append(self.node_type.get_path().as_str());
        text.append(" ");
        assert("#"@ =~= seq!['#']);
        assert(" #"@ =~= seq![' ', '#']);
        write_prefixed(&mut text, &self.ids, '#', "#", " #");
        text.append(" ");
        assert("."@ =~= seq!['.']);
        assert(" ."@ =~= seq![' ', '.']);
        write_prefixed(&mut text, &self.classes, '.', ".", " .");
        text.append("]");
        assert(text@ =~= self@.display());
        text
    }
}

} // verus!
