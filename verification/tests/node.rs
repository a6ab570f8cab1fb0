use std::hash::Hasher;

use azul_dom::dom::Dom;
use azul_dom::events::{EventFilter, FocusEventFilter, HoverEventFilter, NotEventFilter, On, TabIndex};
use azul_dom::hash::{write_number, write_str, DomHash};
use azul_dom::id_tree::NodeId;
use azul_dom::node::{
    str_equal, Callback, CssProperty, DefaultCallbackId, GlTextureCallback, IFrameCallback,
    ImageId, NodeData, NodeType, NodeTypePath, StackCheckedPointer, TextId,
};

fn node_with_ids(ids: &[&str]) -> NodeData {
    let mut data = NodeData::new(NodeType::Div);
    for id in ids {
        data.ids.push(String::from(*id));
    }
    data
}

#[test]
fn equal_nodes_hash_equal() {
    let mut a = NodeData::new(NodeType::Label(String::from("hello")));
    a.ids = vec![String::from("main"), String::from("other")];
    a.classes = vec![String::from("row"), String::from("wide")];
    let mut b = NodeData::new(NodeType::Label(String::from("hello")));
    b.ids = vec![String::from("main"), String::from("other")];
    b.classes = vec![String::from("row"), String::from("wide")];
    assert_eq!(a.calculate_node_data_hash(), b.calculate_node_data_hash());
    assert_eq!(a, b);
}

#[test]
fn id_order_changes_the_hash() {
    let a = node_with_ids(&["first", "second"]);
    let b = node_with_ids(&["second", "first"]);
    assert_ne!(a.calculate_node_data_hash(), b.calculate_node_data_hash());
    assert_ne!(a, b);
}

#[test]
fn hash_of_a_bare_div() {
    // kind 0, five empty lists, not draggable, no tab index
    let mut expected: Vec<u8> = vec![0];
    expected.extend_from_slice(&[0u8; 40]);
    expected.push(0);
    expected.push(0);
    let mut state = Vec::new();
    NodeData::new(NodeType::Div).hash(&mut state);
    assert_eq!(state, expected);
    // XXH64 of these 43 bytes with seed 0 is a fixed number: the hash
    // neither depends on the run nor on the place of the node
    let first = NodeData::new(NodeType::Div).calculate_node_data_hash();
    let dom = Dom::div().with_child(Dom::div());
    let second = dom.arena.node_data.data(NodeId::new(1)).calculate_node_data_hash();
    assert_eq!(first, second);
}

#[test]
fn hash_is_not_its_input() {
    let data = NodeData::new(NodeType::Div);
    let mut state = Vec::new();
    data.hash(&mut state);
    let DomHash(hash) = data.calculate_node_data_hash();
    // XXH64 of the empty input with seed 0
    let empty = twox_hash::XxHash64::with_seed(0).finish();
    assert_eq!(empty, 0xEF46_DB37_51D8_E999);
    assert_ne!(hash, empty);
    let mut hasher = twox_hash::XxHash64::with_seed(0);
    hasher.write(&state);
    let direct = hasher.finish();
    assert_eq!(hash, direct);
}

#[test]
fn encoding_of_a_full_node() {
    let mut data = NodeData::new(NodeType::Label(String::from("hé")));
    data.ids.push(String::from("a"));
    data.callbacks
        .push((EventFilter::from(On::MouseDown), Callback(0x0102)));
    data.callbacks.push((
        EventFilter::Not(NotEventFilter::Focus(FocusEventFilter::FocusLost)),
        Callback(3),
    ));
    data.default_callback_ids
        .push((EventFilter::from(On::VirtualKeyUp), DefaultCallbackId(4)));
    data.dynamic_css_overrides
        .push((String::from("w"), CssProperty(0x0a0b)));
    data.draggable = true;
    data.tab_index = Some(TabIndex::Global(7));

    let mut expected: Vec<u8> = Vec::new();
    // kind: label, three bytes of text
    expected.extend_from_slice(&[1, 3, 0, 0, 0, 0, 0, 0, 0, b'h', 0xc3, 0xa9]);
    // ids: one of one byte
    expected.extend_from_slice(&[1, 0, 0, 0, 0, 0, 0, 0, 1, 0, 0, 0, 0, 0, 0, 0, b'a']);
    // classes: none
    expected.extend_from_slice(&[0, 0, 0, 0, 0, 0, 0, 0]);
    // callbacks: two
    expected.extend_from_slice(&[2, 0, 0, 0, 0, 0, 0, 0]);
    expected.extend_from_slice(&[0, 1, 2, 1, 0, 0, 0, 0, 0, 0]);
    expected.extend_from_slice(&[1, 1, 16, 3, 0, 0, 0, 0, 0, 0, 0]);
    // default callbacks: one
    expected.extend_from_slice(&[1, 0, 0, 0, 0, 0, 0, 0]);
    expected.extend_from_slice(&[3, 14, 4, 0, 0, 0, 0, 0, 0, 0]);
    // overrides: one
    expected.extend_from_slice(&[1, 0, 0, 0, 0, 0, 0, 0]);
    expected.extend_from_slice(&[1, 0, 0, 0, 0, 0, 0, 0, b'w', 0x0b, 0x0a, 0, 0, 0, 0, 0, 0]);
    // draggable, tab index
    expected.extend_from_slice(&[1, 1, 2, 7, 0, 0, 0, 0, 0, 0, 0]);

    let mut state = vec![0xff];
    data.hash(&mut state);
    assert_eq!(state[0], 0xff);
    assert_eq!(&state[1..], &expected[..]);
}

#[test]
fn encoding_of_the_element_kinds() {
    let kinds = vec![
        (NodeType::Div, vec![0u8]),
        (NodeType::Text(TextId(5)), vec![2, 5, 0, 0, 0, 0, 0, 0, 0]),
        (NodeType::Image(ImageId(6)), vec![3, 6, 0, 0, 0, 0, 0, 0, 0]),
        (
            NodeType::GlTexture((GlTextureCallback(1), StackCheckedPointer(2))),
            vec![4, 1, 0, 0, 0, 0, 0, 0, 0, 2, 0, 0, 0, 0, 0, 0, 0],
        ),
        (
            NodeType::IFrame((IFrameCallback(1), StackCheckedPointer(2))),
            vec![5, 1, 0, 0, 0, 0, 0, 0, 0, 2, 0, 0, 0, 0, 0, 0, 0],
        ),
    ];
    for (kind, expected) in kinds {
        let mut state = Vec::new();
        kind.hash(&mut state);
        assert_eq!(state, expected);
    }
}

#[test]
fn encoding_of_filters_and_tab_indices() {
    let mut state = Vec::new();
    EventFilter::Hover(HoverEventFilter::HoveredFileCancelled).hash(&mut state);
    assert_eq!(state, vec![0, 17]);
    let mut state = Vec::new();
    EventFilter::Not(NotEventFilter::Hover(HoverEventFilter::MouseOver)).hash(&mut state);
    assert_eq!(state, vec![1, 0, 0]);
    let mut state = Vec::new();
    EventFilter::Focus(FocusEventFilter::FocusReceived).hash(&mut state);
    assert_eq!(state, vec![2, 15]);
    let mut state = Vec::new();
    TabIndex::Auto.hash(&mut state);
    assert_eq!(state, vec![0]);
    let mut state = Vec::new();
    TabIndex::OverrideInParent(258).hash(&mut state);
    assert_eq!(state, vec![1, 2, 1, 0, 0, 0, 0, 0, 0]);
}

#[test]
fn numbers_and_strings_are_written_with_their_length() {
    let mut state = vec![9];
    write_number(&mut state, 0x0102_0304);
    assert_eq!(state, vec![9, 4, 3, 2, 1, 0, 0, 0, 0]);
    let mut state = Vec::new();
    write_str(&mut state, "");
    assert_eq!(state, vec![0, 0, 0, 0, 0, 0, 0, 0]);
    let mut state = Vec::new();
    write_str(&mut state, "ab");
    assert_eq!(state, vec![2, 0, 0, 0, 0, 0, 0, 0, b'a', b'b']);
}

#[test]
fn callbacks_are_compared_by_identity() {
    let a = NodeType::GlTexture((GlTextureCallback(1), StackCheckedPointer(2)));
    let b = NodeType::GlTexture((GlTextureCallback(1), StackCheckedPointer(2)));
    let c = NodeType::GlTexture((GlTextureCallback(1), StackCheckedPointer(3)));
    let d = NodeType::GlTexture((GlTextureCallback(4), StackCheckedPointer(2)));
    let e = NodeType::IFrame((IFrameCallback(1), StackCheckedPointer(2)));
    assert!(a == b);
    assert!(a != c);
    assert!(a != d);
    assert!(a != e);
    assert!(NodeType::Div == NodeType::Div);
    assert!(NodeType::Div != NodeType::Label(String::new()));
    assert!(NodeType::Label(String::from("a")) == NodeType::Label(String::from("a")));
    assert!(NodeType::Label(String::from("a")) != NodeType::Label(String::from("b")));
    assert!(NodeType::Text(TextId(1)) != NodeType::Image(ImageId(1)));
    assert!(NodeType::Text(TextId(1)) == NodeType::Text(TextId(1)));
    assert!(NodeType::Image(ImageId(1)) != NodeType::Image(ImageId(2)));
}

#[test]
fn node_data_equality_looks_at_every_field() {
    let base = || {
        let mut data = NodeData::new(NodeType::Div);
        data.ids.push(String::from("a"));
        data.classes.push(String::from("b"));
        data.callbacks.push((EventFilter::from(On::MouseUp), Callback(1)));
        data.default_callback_ids
            .push((EventFilter::from(On::MouseUp), DefaultCallbackId(1)));
        data.dynamic_css_overrides
            .push((String::from("w"), CssProperty(1)));
        data.tab_index = Some(TabIndex::Auto);
        data
    };
    assert_eq!(base(), base());
    let mut other = base();
    other.node_type = NodeType::Text(TextId(0));
    assert_ne!(base(), other);
    let mut other = base();
    other.ids.push(String::from("c"));
    assert_ne!(base(), other);
    let mut other = base();
    other.classes[0] = String::from("c");
    assert_ne!(base(), other);
    let mut other = base();
    other.callbacks[0].1 = Callback(2);
    assert_ne!(base(), other);
    let mut other = base();
    other.default_callback_ids[0].0 = EventFilter::from(On::MouseDown);
    assert_ne!(base(), other);
    let mut other = base();
    other.dynamic_css_overrides[0].1 = CssProperty(2);
    assert_ne!(base(), other);
    let mut other = base();
    other.draggable = true;
    assert_ne!(base(), other);
    let mut other = base();
    other.tab_index = None;
    assert_ne!(base(), other);
    let mut other = base();
    other.tab_index = Some(TabIndex::Global(0));
    assert_ne!(base(), other);
}

#[test]
fn clone_keeps_the_payload() {
    let mut data = NodeData::new(NodeType::Label(String::from("x")));
    data.ids.push(String::from("a"));
    data.classes.push(String::from("b"));
    data.callbacks.push((EventFilter::from(On::MouseUp), Callback(1)));
    data.dynamic_css_overrides
        .push((String::from("w"), CssProperty(1)));
    data.draggable = true;
    let copy = data.clone();
    assert_eq!(copy, data);
    assert_eq!(copy.ids, vec![String::from("a")]);
    assert_eq!(copy.node_type.clone(), NodeType::Label(String::from("x")));
}

#[test]
fn default_node_is_a_bare_div() {
    let data = NodeData::default();
    assert_eq!(data.node_type, NodeType::Div);
    assert!(data.ids.is_empty());
    assert!(data.classes.is_empty());
    assert!(data.callbacks.is_empty());
    assert!(data.default_callback_ids.is_empty());
    assert!(data.dynamic_css_overrides.is_empty());
    assert!(!data.draggable);
    assert_eq!(data.tab_index, None);
    assert_eq!(data, NodeData::new(NodeType::Div));
}

#[test]
fn ids_and_classes_are_found() {
    let mut data = node_with_ids(&["main", "something"]);
    data.classes.push(String::from("row"));
    assert!(data.has_id("main"));
    assert!(data.has_id("something"));
    assert!(!data.has_id("row"));
    assert!(!data.has_id("mai"));
    assert!(data.has_class("row"));
    assert!(!data.has_class("main"));
    assert!(data.is_node_type(NodeType::Div));
    assert!(!data.is_node_type(NodeType::Text(TextId(0))));
    assert!(str_equal("é", "é"));
    assert!(!str_equal("e", "é"));
    assert!(str_equal("", ""));
}

#[test]
fn paths_of_the_element_kinds() {
    assert_eq!(NodeType::Div.get_path(), NodeTypePath::Div);
    assert_eq!(NodeType::Label(String::new()).get_path(), NodeTypePath::P);
    assert_eq!(NodeType::Text(TextId(0)).get_path(), NodeTypePath::P);
    assert_eq!(NodeType::Image(ImageId(0)).get_path(), NodeTypePath::Img);
    assert_eq!(
        NodeType::GlTexture((GlTextureCallback(0), StackCheckedPointer(0))).get_path(),
        NodeTypePath::Texture
    );
    assert_eq!(
        NodeType::IFrame((IFrameCallback(0), StackCheckedPointer(0))).get_path(),
        NodeTypePath::IFrame
    );
    assert_eq!(NodeTypePath::Div.as_str(), "div");
    assert_eq!(NodeTypePath::P.as_str(), "p");
    assert_eq!(NodeTypePath::Img.as_str(), "img");
    assert_eq!(NodeTypePath::Texture.as_str(), "texture");
    assert_eq!(NodeTypePath::IFrame.as_str(), "iframe");
}

#[test]
fn node_as_text() {
    assert_eq!(NodeData::new(NodeType::Div).to_string(), "[div  ]");
    let mut data = node_with_ids(&["main", "other"]);
    data.classes.push(String::from("row"));
    assert_eq!(data.to_string(), "[div #main #other .row]");
    let mut label = NodeData::new(NodeType::Label(String::from("x")));
    label.classes.push(String::from("a"));
    label.classes.push(String::from("b"));
    label.classes.push(String::from("c"));
    assert_eq!(label.to_string(), "[p  .a .b .c]");
}

#[test]
fn builders_change_the_node_at_the_insertion_point() {
    let mut dom = Dom::div().with_child(Dom::div());
    dom.add_id("a");
    dom.add_class("b");
    dom.add_callback(EventFilter::from(On::MouseUp), Callback(1));
    dom.add_default_callback_id(EventFilter::from(On::MouseUp), DefaultCallbackId(2));
    dom.add_tab_index(TabIndex::Global(1));
    dom.add_css_override("w", CssProperty(3));
    dom.set_draggable(true);
    let mut expected = NodeData::new(NodeType::Div);
    expected.ids.push(String::from("a"));
    expected.classes.push(String::from("b"));
    expected
        .callbacks
        .push((EventFilter::from(On::MouseUp), Callback(1)));
    expected
        .default_callback_ids
        .push((EventFilter::from(On::MouseUp), DefaultCallbackId(2)));
    expected.tab_index = Some(TabIndex::Global(1));
    expected
        .dynamic_css_overrides
        .push((String::from("w"), CssProperty(3)));
    expected.draggable = true;
    assert_eq!(dom.arena.node_data.data(NodeId::new(0)), &expected);
    assert_eq!(
        dom.arena.node_data.data(NodeId::new(1)),
        &NodeData::new(NodeType::Div)
    );
    assert_eq!(dom.head, NodeId::new(0));
    assert_eq!(dom.len(), 2);

    dom.head = NodeId::new(1);
    dom.add_id("child");
    assert_eq!(dom.arena.node_data.data(NodeId::new(0)), &expected);
    assert_eq!(
        dom.arena.node_data.data(NodeId::new(1)).ids,
        vec![String::from("child")]
    );
}

#[test]
fn chained_builders_do_the_same() {
    let dom = Dom::label("x")
        .with_id("a")
        .with_class("b")
        .with_callback(EventFilter::from(On::MouseUp), Callback(1))
        .with_css_override("w", CssProperty(3))
        .with_tab_index(TabIndex::Auto)
        .is_draggable(true);
    let mut expected = NodeData::new(NodeType::Label(String::from("x")));
    expected.ids.push(String::from("a"));
    expected.classes.push(String::from("b"));
    expected
        .callbacks
        .push((EventFilter::from(On::MouseUp), Callback(1)));
    expected
        .dynamic_css_overrides
        .push((String::from("w"), CssProperty(3)));
    expected.tab_index = Some(TabIndex::Auto);
    expected.draggable = true;
    assert_eq!(dom.arena.node_data.data(NodeId::new(0)), &expected);
    assert_eq!(dom.len(), 1);
}

#[test]
fn shorthand_constructors() {
    let kind = |dom: &Dom| dom.arena.node_data.data(NodeId::new(0)).node_type.clone();
    assert_eq!(kind(&Dom::div()), NodeType::Div);
    assert_eq!(kind(&Dom::label("a")), NodeType::Label(String::from("a")));
    assert_eq!(kind(&Dom::text_id(TextId(3))), NodeType::Text(TextId(3)));
    assert_eq!(kind(&Dom::image(ImageId(4))), NodeType::Image(ImageId(4)));
    assert_eq!(
        kind(&Dom::gl_texture(GlTextureCallback(1), StackCheckedPointer(2))),
        NodeType::GlTexture((GlTextureCallback(1), StackCheckedPointer(2)))
    );
    assert_eq!(
        kind(&Dom::iframe(IFrameCallback(1), StackCheckedPointer(2))),
        NodeType::IFrame((IFrameCallback(1), StackCheckedPointer(2)))
    );
    assert_eq!(Dom::with_capacity(NodeType::Div, 10).len(), 1);
    assert_eq!(Dom::with_capacity(NodeType::Div, usize::MAX).len(), 1);
}

#[test]
fn documents_from_lists() {
    let dom = Dom::from_children(vec![
        Dom::label("a").with_child(Dom::label("a1")),
        Dom::label("b"),
    ]);
    assert_eq!(dom.len(), 4);
    let layout = &dom.arena.node_layout;
    assert_eq!(layout.node(NodeId::new(0)).first_child, Some(NodeId::new(1)));
    assert_eq!(layout.node(NodeId::new(0)).last_child, Some(NodeId::new(3)));
    assert_eq!(layout.node(NodeId::new(1)).next_sibling, Some(NodeId::new(3)));
    assert_eq!(layout.node(NodeId::new(1)).first_child, Some(NodeId::new(2)));
    assert_eq!(layout.node(NodeId::new(2)).parent, Some(NodeId::new(1)));
    assert_eq!(layout.node(NodeId::new(3)).previous_sibling, Some(NodeId::new(1)));
    assert_eq!(
        dom.arena.node_data.data(NodeId::new(3)).node_type,
        NodeType::Label(String::from("b"))
    );
    assert_eq!(Dom::from_children(Vec::new()).len(), 1);

    let dom = Dom::from_node_types(vec![NodeType::Div, NodeType::Text(TextId(1))]);
    assert_eq!(dom.len(), 3);
    assert_eq!(
        dom.arena.node_data.data(NodeId::new(2)),
        &NodeData::new(NodeType::Text(TextId(1)))
    );
    assert_eq!(
        dom.arena.node_layout.node(NodeId::new(0)).last_child,
        Some(NodeId::new(2))
    );
    assert_eq!(Dom::from_node_types(Vec::new()).len(), 1);
}
