use azul_dom::callbacks::{filter_callbacks, CallbackMap};
use azul_dom::dom::Dom;
use azul_dom::events::{
    DesktopEventFilter, EventFilter, FocusEventFilter, HoverEventFilter, NotEventFilter, On,
    TabIndex, WindowEventFilter,
};
use azul_dom::id_tree::NodeId;
use azul_dom::node::{Callback, CssProperty, DefaultCallbackId, NodeType};
use azul_dom::tags::{new_scroll_tag_id, new_tag_id, ScrollTagId, TagAllocator};
use azul_dom::ui_state::UiState;

fn assert_no_callbacks(ui: &UiState) {
    assert!(ui.hover_callbacks.is_empty());
    assert!(ui.hover_default_callbacks.is_empty());
    assert!(ui.focus_callbacks.is_empty());
    assert!(ui.focus_default_callbacks.is_empty());
    assert!(ui.not_callbacks.is_empty());
    assert!(ui.not_default_callbacks.is_empty());
    assert!(ui.window_callbacks.is_empty());
    assert!(ui.window_default_callbacks.is_empty());
    assert!(ui.desktop_callbacks.is_empty());
    assert!(ui.desktop_default_callbacks.is_empty());
}

#[test]
fn hover_callback_gets_the_first_tag() {
    let dom = Dom::div().with_callback(EventFilter::from(On::MouseUp), Callback(42));
    let mut tags = TagAllocator::new();
    let ui = dom.into_ui_state(&mut tags);

    assert_eq!(ui.hover_callbacks.len(), 1);
    let map = ui.hover_callbacks.get(&0).expect("no hover callbacks for the root");
    assert_eq!(map.len(), 1);
    assert_eq!(map.get(&HoverEventFilter::MouseUp), Some(Callback(42)));
    assert_eq!(map.get(&HoverEventFilter::MouseDown), None);

    assert_eq!(ui.node_ids_to_tag_ids.get(&0), Some(&1));
    assert_eq!(ui.tag_ids_to_node_ids.get(&1), Some(&NodeId::new(0)));
    assert_eq!(ui.node_ids_to_tag_ids.len(), 1);
    assert_eq!(ui.tag_ids_to_node_ids.len(), 1);

    assert!(ui.focus_callbacks.is_empty());
    assert!(ui.not_callbacks.is_empty());
    assert!(ui.window_callbacks.is_empty());
    assert!(ui.desktop_callbacks.is_empty());
    assert!(ui.draggable_tags.is_empty());
    assert!(ui.tab_index_tags.is_empty());
    assert_eq!(tags.next, 2);
}

#[test]
fn tab_index_alone_gets_a_tag_and_no_callbacks() {
    let dom = Dom::div().with_tab_index(TabIndex::Auto);
    let mut tags = TagAllocator::new();
    let ui = dom.into_ui_state(&mut tags);

    assert_no_callbacks(&ui);
    assert_eq!(ui.tab_index_tags.len(), 1);
    assert_eq!(
        ui.tab_index_tags.get(&1),
        Some(&(NodeId::new(0), TabIndex::Auto))
    );
    assert!(ui.draggable_tags.is_empty());
    assert_eq!(ui.node_ids_to_tag_ids.get(&0), Some(&1));
    assert_eq!(ui.tag_ids_to_node_ids.get(&1), Some(&NodeId::new(0)));
}

#[test]
fn window_callback_alone_gets_no_tag() {
    let dom = Dom::div().with_callback(EventFilter::from(On::VirtualKeyDown), Callback(7));
    let mut tags = TagAllocator::new();
    let ui = dom.into_ui_state(&mut tags);

    assert_eq!(ui.window_callbacks.len(), 1);
    let map = ui.window_callbacks.get(&0).expect("no window callbacks for the root");
    assert_eq!(map.get(&WindowEventFilter::VirtualKeyDown), Some(Callback(7)));
    assert_eq!(map.len(), 1);
    assert!(ui.node_ids_to_tag_ids.is_empty());
    assert!(ui.tag_ids_to_node_ids.is_empty());
    assert!(ui.hover_callbacks.is_empty());
    assert!(ui.focus_callbacks.is_empty());
    assert!(ui.not_callbacks.is_empty());
    assert!(ui.desktop_callbacks.is_empty());
    assert_eq!(tags.next, 1);
}

#[test]
fn desktop_callback_alone_gets_no_tag() {
    let dom = Dom::div().with_callback(
        EventFilter::Desktop(DesktopEventFilter::DeviceAdded),
        Callback(7),
    );
    let mut tags = TagAllocator::new();
    let ui = dom.into_ui_state(&mut tags);
    let map = ui.desktop_callbacks.get(&0).expect("no desktop callbacks for the root");
    assert_eq!(map.get(&DesktopEventFilter::DeviceAdded), Some(Callback(7)));
    assert!(ui.node_ids_to_tag_ids.is_empty());
    assert!(ui.tag_ids_to_node_ids.is_empty());
}

#[test]
fn a_node_has_one_tag_whatever_asks_for_it() {
    let mut dom = Dom::div()
        .with_callback(EventFilter::from(On::MouseOver), Callback(1))
        .with_callback(EventFilter::from(On::TextInput), Callback(2))
        .with_callback(
            EventFilter::Not(NotEventFilter::Hover(HoverEventFilter::MouseDown)),
            Callback(3),
        )
        .with_tab_index(TabIndex::Global(3))
        .is_draggable(true);
    dom.add_default_callback_id(EventFilter::from(On::FocusLost), DefaultCallbackId(9));
    let mut tags = TagAllocator::new();
    let ui = dom.into_ui_state(&mut tags);

    assert_eq!(ui.node_ids_to_tag_ids.len(), 1);
    assert_eq!(ui.node_ids_to_tag_ids.get(&0), Some(&1));
    assert_eq!(ui.tag_ids_to_node_ids.get(&1), Some(&NodeId::new(0)));
    assert_eq!(ui.draggable_tags.get(&1), Some(&NodeId::new(0)));
    assert_eq!(
        ui.tab_index_tags.get(&1),
        Some(&(NodeId::new(0), TabIndex::Global(3)))
    );
    assert_eq!(
        ui.hover_callbacks.get(&0).unwrap().get(&HoverEventFilter::MouseOver),
        Some(Callback(1))
    );
    assert_eq!(
        ui.focus_callbacks.get(&0).unwrap().get(&FocusEventFilter::TextInput),
        Some(Callback(2))
    );
    assert_eq!(
        ui.not_callbacks
            .get(&0)
            .unwrap()
            .get(&NotEventFilter::Hover(HoverEventFilter::MouseDown)),
        Some(Callback(3))
    );
    assert_eq!(
        ui.focus_default_callbacks
            .get(&0)
            .unwrap()
            .get(&FocusEventFilter::FocusLost),
        Some(DefaultCallbackId(9))
    );
    assert!(ui.hover_default_callbacks.is_empty());
    assert_eq!(tags.next, 2);
}

#[test]
fn tags_count_up_in_slot_order() {
    // 0: plain, 1: draggable, 2: window callback only, 3: focusable, 4: hover callback
    let dom = Dom::div()
        .with_child(Dom::div().is_draggable(true))
        .with_child(Dom::div().with_callback(EventFilter::from(On::VirtualKeyUp), Callback(5)))
        .with_child(Dom::div().with_tab_index(TabIndex::OverrideInParent(2)))
        .with_child(Dom::label("x").with_callback(EventFilter::from(On::Scroll), Callback(6)));
    let mut tags = TagAllocator::new();
    // what the allocator held before does not matter
    new_tag_id(&mut tags);
    new_tag_id(&mut tags);
    let ui = dom.into_ui_state(&mut tags);

    assert_eq!(ui.node_ids_to_tag_ids.get(&0), None);
    assert_eq!(ui.node_ids_to_tag_ids.get(&1), Some(&1));
    assert_eq!(ui.node_ids_to_tag_ids.get(&2), None);
    assert_eq!(ui.node_ids_to_tag_ids.get(&3), Some(&2));
    assert_eq!(ui.node_ids_to_tag_ids.get(&4), Some(&3));
    assert_eq!(ui.node_ids_to_tag_ids.len(), 3);

    assert_eq!(ui.tag_ids_to_node_ids.get(&1), Some(&NodeId::new(1)));
    assert_eq!(ui.tag_ids_to_node_ids.get(&2), Some(&NodeId::new(3)));
    assert_eq!(ui.tag_ids_to_node_ids.get(&3), Some(&NodeId::new(4)));
    assert_eq!(ui.tag_ids_to_node_ids.len(), 3);
    for (node, tag) in ui.node_ids_to_tag_ids.iter() {
        assert_eq!(ui.tag_ids_to_node_ids.get(tag), Some(&NodeId::new(*node)));
    }
    for (tag, node) in ui.tag_ids_to_node_ids.iter() {
        assert_eq!(ui.node_ids_to_tag_ids.get(&node.index()), Some(tag));
    }

    assert_eq!(ui.draggable_tags.len(), 1);
    assert_eq!(ui.draggable_tags.get(&1), Some(&NodeId::new(1)));
    assert_eq!(ui.tab_index_tags.len(), 1);
    assert_eq!(
        ui.tab_index_tags.get(&2),
        Some(&(NodeId::new(3), TabIndex::OverrideInParent(2)))
    );
    assert_eq!(ui.window_callbacks.len(), 1);
    assert!(ui.window_callbacks.contains_key(&2));
    assert_eq!(ui.hover_callbacks.len(), 1);
    assert!(ui.hover_callbacks.contains_key(&4));
    assert_eq!(tags.next, 4);
    assert_eq!(ui.dom.len(), 5);
}

#[test]
fn builds_restart_the_tags() {
    let mut tags = TagAllocator::new();
    let first = Dom::div().is_draggable(true).into_ui_state(&mut tags);
    assert_eq!(tags.next, 2);
    let second = Dom::div().is_draggable(true).into_ui_state(&mut tags);
    assert_eq!(tags.next, 2);
    assert_eq!(first.node_ids_to_tag_ids.get(&0), Some(&1));
    assert_eq!(second.node_ids_to_tag_ids.get(&0), Some(&1));
}

#[test]
fn draggable_false_gets_no_tag() {
    let mut tags = TagAllocator::new();
    let ui = Dom::div().is_draggable(false).into_ui_state(&mut tags);
    assert!(ui.draggable_tags.is_empty());
    assert!(ui.node_ids_to_tag_ids.is_empty());
    assert_no_callbacks(&ui);
    assert!(ui.dynamic_css_overrides.is_empty());
}

#[test]
fn style_overrides_are_copied_by_node() {
    let dom = Dom::div().with_child(
        Dom::div()
            .with_css_override("width", CssProperty(500))
            .with_css_override("height", CssProperty(20)),
    );
    let mut tags = TagAllocator::new();
    let ui = dom.into_ui_state(&mut tags);
    assert_eq!(ui.dynamic_css_overrides.len(), 1);
    assert_eq!(
        ui.dynamic_css_overrides.get(&1),
        Some(&vec![
            (String::from("width"), CssProperty(500)),
            (String::from("height"), CssProperty(20)),
        ])
    );
    assert!(ui.node_ids_to_tag_ids.is_empty());
}

#[test]
fn later_callback_of_the_same_kind_wins() {
    let source = vec![
        (EventFilter::from(On::MouseUp), Callback(1)),
        (EventFilter::from(On::TextInput), Callback(2)),
        (EventFilter::from(On::MouseDown), Callback(3)),
        (EventFilter::from(On::MouseUp), Callback(4)),
    ];
    let hover: CallbackMap<HoverEventFilter, Callback> = filter_callbacks(&source);
    assert_eq!(hover.len(), 2);
    assert_eq!(hover.get(&HoverEventFilter::MouseUp), Some(Callback(4)));
    assert_eq!(hover.get(&HoverEventFilter::MouseDown), Some(Callback(3)));
    assert_eq!(hover.get(&HoverEventFilter::TextInput), None);
    assert!(!hover.is_empty());
    let focus: CallbackMap<FocusEventFilter, Callback> = filter_callbacks(&source);
    assert_eq!(focus.len(), 1);
    assert_eq!(focus.get(&FocusEventFilter::TextInput), Some(Callback(2)));
    let window: CallbackMap<WindowEventFilter, Callback> = filter_callbacks(&source);
    assert!(window.is_empty());
    assert_eq!(window.len(), 0);
}

#[test]
fn callback_map_insert_replaces() {
    let mut map: CallbackMap<DesktopEventFilter, Callback> = CallbackMap::new();
    assert!(map.is_empty());
    map.insert(DesktopEventFilter::Awakened, Callback(1));
    map.insert(DesktopEventFilter::AppResumed, Callback(2));
    map.insert(DesktopEventFilter::Awakened, Callback(3));
    assert_eq!(map.len(), 2);
    assert_eq!(map.get(&DesktopEventFilter::Awakened), Some(Callback(3)));
    assert_eq!(map.get(&DesktopEventFilter::AppResumed), Some(Callback(2)));
    assert_eq!(map.get(&DesktopEventFilter::DeviceAdded), None);
}

#[test]
fn tag_allocator_counts_from_one() {
    let mut tags = TagAllocator::new();
    assert_eq!(new_tag_id(&mut tags), 1);
    assert_eq!(new_tag_id(&mut tags), 2);
    assert_eq!(new_scroll_tag_id(&mut tags), ScrollTagId(3));
    assert_eq!(tags.next, 4);
    tags.reset();
    assert_eq!(new_tag_id(&mut tags), 1);
}

#[test]
fn tag_allocator_wraps_around() {
    let mut tags = TagAllocator { next: u64::MAX };
    assert_eq!(new_tag_id(&mut tags), u64::MAX);
    assert_eq!(tags.next, 0);
    assert_eq!(new_tag_id(&mut tags), 0);
    assert_eq!(tags.next, 1);
}

#[test]
fn ui_state_keeps_the_document() {
    let dom = Dom::label("a").with_id("x").with_child(Dom::div());
    let mut tags = TagAllocator::new();
    let ui = dom.into_ui_state(&mut tags);
    assert_eq!(ui.dom.len(), 2);
    assert_eq!(
        ui.dom.arena.node_data.data(NodeId::new(0)).node_type,
        NodeType::Label(String::from("a"))
    );
    assert_eq!(
        ui.dom.arena.node_data.data(NodeId::new(0)).ids,
        vec![String::from("x")]
    );
}

fn walk_parent_first(dom: &Dom, slot: usize, out: &mut Vec<usize>) {
    out.push(slot);
    let mut child = dom.arena.node_layout.node(NodeId::new(slot)).first_child;
    while let Some(id) = child {
        walk_parent_first(dom, id.index(), out);
        child = dom.arena.node_layout.node(id).next_sibling;
    }
}

#[test]
fn built_documents_are_stored_parent_first() {
    let dom = Dom::div()
        .with_child(
            Dom::div()
                .is_draggable(true)
                .with_child(Dom::div().with_child(Dom::label("deep").is_draggable(true)))
                .with_child(Dom::div().with_tab_index(TabIndex::Auto)),
        )
        .with_child(Dom::from_children(vec![
            Dom::label("a").is_draggable(true),
            Dom::label("b"),
        ]))
        .with_child(Dom::label("last").is_draggable(true));
    let mut order = Vec::new();
    walk_parent_first(&dom, 0, &mut order);
    assert_eq!(order, (0..dom.len()).collect::<Vec<usize>>());
    assert_eq!(dom.len(), 9);

    let mut tags = TagAllocator::new();
    let ui = dom.into_ui_state(&mut tags);
    // the tags count up along the walk
    let tagged: Vec<(usize, u64)> = order
        .iter()
        .filter_map(|slot| ui.node_ids_to_tag_ids.get(slot).map(|tag| (*slot, *tag)))
        .collect();
    assert_eq!(tagged, vec![(1, 1), (3, 2), (4, 3), (6, 4), (8, 5)]);
    assert_eq!(tags.next, 6);
}
