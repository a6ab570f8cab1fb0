use azul_dom::dom::Dom;
use azul_dom::events::{
    EventFilter, FocusEventFilter, HoverEventFilter, On, TabIndex, WindowEventFilter,
};
use azul_dom::id_tree::{Arena, Node, NodeId};
use azul_dom::node::{Callback, CssProperty, NodeData, NodeType};
use azul_dom::tags::TagAllocator;

/// 0 -> (1 -> (3), 2): slot 3 was added under slot 1 after slot 2.
fn document_out_of_order() -> Dom {
    let mut dom = Dom::div()
        .with_id("root")
        .with_child(Dom::div().with_id("first"))
        .with_child(Dom::label("x").with_id("second").is_draggable(true));
    dom.head = NodeId::new(1);
    dom.add_child(Dom::div().with_class("inner").is_draggable(true));
    dom.head = NodeId::new(0);
    dom
}

#[test]
fn walk_follows_the_links() {
    let dom = document_out_of_order();
    assert!(dom.is_valid());
    assert_eq!(dom.preorder_slots(), vec![0, 1, 3, 2]);

    let built = Dom::div()
        .with_child(Dom::div().with_child(Dom::div()).with_child(Dom::div()))
        .with_child(Dom::div().with_child(Dom::div()));
    assert_eq!(built.preorder_slots(), vec![0, 1, 2, 3, 4, 5]);
    assert_eq!(Dom::div().preorder_slots(), vec![0]);
}

#[test]
fn depth_counts_the_ancestors() {
    let dom = document_out_of_order();
    assert_eq!(dom.depth_of(NodeId::new(0)), 0);
    assert_eq!(dom.depth_of(NodeId::new(1)), 1);
    assert_eq!(dom.depth_of(NodeId::new(2)), 1);
    assert_eq!(dom.depth_of(NodeId::new(3)), 2);
}

#[test]
fn tree_as_text() {
    assert_eq!(Dom::div().print_tree(), "[div  ]\n");
    let dom = document_out_of_order();
    assert_eq!(
        dom.print_tree(),
        "[div #root ]\n    [div #first ]\n        [div  .inner]\n    [p #second ]\n"
    );
    let built = Dom::div()
        .with_child(Dom::label("a").with_child(Dom::div().with_id("deep")))
        .with_child(Dom::div().with_class("last"));
    assert_eq!(
        built.print_tree(),
        "[div  ]\n    [p  ]\n        [div #deep ]\n    [div  .last]\n"
    );
}

#[test]
fn tags_follow_the_walk_not_the_slots() {
    let dom = document_out_of_order();
    // the walk reaches slot 3 before slot 2
    assert_eq!(dom.preorder_slots(), vec![0, 1, 3, 2]);
    let mut tags = TagAllocator::new();
    let ui = dom.into_ui_state(&mut tags);
    assert_eq!(ui.node_ids_to_tag_ids.get(&3), Some(&1));
    assert_eq!(ui.node_ids_to_tag_ids.get(&2), Some(&2));
    assert_eq!(ui.node_ids_to_tag_ids.len(), 2);
    assert_eq!(ui.tag_ids_to_node_ids.get(&1), Some(&NodeId::new(3)));
    assert_eq!(ui.tag_ids_to_node_ids.get(&2), Some(&NodeId::new(2)));
    assert_eq!(ui.tag_ids_to_node_ids.len(), 2);
    assert_eq!(ui.draggable_tags.get(&1), Some(&NodeId::new(3)));
    assert_eq!(ui.draggable_tags.get(&2), Some(&NodeId::new(2)));
    assert_eq!(tags.next, 3);
}

#[test]
fn tables_by_slot_do_not_depend_on_the_walk() {
    let mut dom = Dom::div()
        .with_child(Dom::div())
        .with_child(
            Dom::div()
                .with_callback(EventFilter::from(On::MouseUp), Callback(2))
                .with_css_override("w", CssProperty(2))
                .with_tab_index(TabIndex::Global(2)),
        );
    dom.head = NodeId::new(1);
    dom.add_child(
        Dom::div()
            .with_callback(EventFilter::from(On::VirtualKeyDown), Callback(3))
            .with_callback(EventFilter::from(On::TextInput), Callback(4))
            .with_css_override("h", CssProperty(3))
            .with_tab_index(TabIndex::Auto),
    );
    assert_eq!(dom.preorder_slots(), vec![0, 1, 3, 2]);
    let mut tags = TagAllocator::new();
    let ui = dom.into_ui_state(&mut tags);

    assert_eq!(ui.hover_callbacks.len(), 1);
    assert_eq!(
        ui.hover_callbacks.get(&2).unwrap().get(&HoverEventFilter::MouseUp),
        Some(Callback(2))
    );
    assert_eq!(ui.window_callbacks.len(), 1);
    assert_eq!(
        ui.window_callbacks
            .get(&3)
            .unwrap()
            .get(&WindowEventFilter::VirtualKeyDown),
        Some(Callback(3))
    );
    assert_eq!(ui.focus_callbacks.len(), 1);
    assert_eq!(
        ui.focus_callbacks.get(&3).unwrap().get(&FocusEventFilter::TextInput),
        Some(Callback(4))
    );
    assert_eq!(ui.dynamic_css_overrides.len(), 2);
    assert_eq!(
        ui.dynamic_css_overrides.get(&2),
        Some(&vec![(String::from("w"), CssProperty(2))])
    );
    assert_eq!(
        ui.dynamic_css_overrides.get(&3),
        Some(&vec![(String::from("h"), CssProperty(3))])
    );
    assert_eq!(ui.node_ids_to_tag_ids.get(&3), Some(&1));
    assert_eq!(ui.node_ids_to_tag_ids.get(&2), Some(&2));
    assert_eq!(
        ui.tab_index_tags.get(&1),
        Some(&(NodeId::new(3), TabIndex::Auto))
    );
    assert_eq!(
        ui.tab_index_tags.get(&2),
        Some(&(NodeId::new(2), TabIndex::Global(2)))
    );
    assert_eq!(tags.next, 3);
}

#[test]
fn valid_documents_are_told_from_others() {
    assert!(Dom::div().is_valid());
    assert!(Dom::from_iter(vec![NodeData::new(NodeType::Div), NodeData::new(NodeType::Div)]).is_valid());
    assert!(document_out_of_order().is_valid());

    let empty = Dom {
        arena: Arena::new(),
        root: NodeId::new(0),
        head: NodeId::new(0),
    };
    assert!(!empty.is_valid());

    let mut dom = Dom::div().with_child(Dom::div()).with_child(Dom::div());
    dom.head = NodeId::new(3);
    assert!(!dom.is_valid());
    dom.head = NodeId::new(2);
    assert!(dom.is_valid());
    dom.root = NodeId::new(1);
    assert!(!dom.is_valid());
    dom.root = NodeId::new(0);

    let broken = |change: fn(&mut Vec<Node>)| {
        let mut dom = Dom::div().with_child(Dom::div()).with_child(Dom::div());
        change(&mut dom.arena.node_layout.internal);
        dom.is_valid()
    };
    assert!(broken(|_| {}));
    // a link out of the arena
    assert!(!broken(|nodes| nodes[2].next_sibling = Some(NodeId::new(3))));
    // a second root
    assert!(!broken(|nodes| nodes[2].parent = None));
    // a root with a sibling
    assert!(!broken(|nodes| nodes[0].next_sibling = Some(NodeId::new(1))));
    // a parent behind its child
    assert!(!broken(|nodes| nodes[1].parent = Some(NodeId::new(2))));
    // a link that is not answered
    assert!(!broken(|nodes| nodes[1].next_sibling = None));
    assert!(!broken(|nodes| nodes[2].previous_sibling = None));
    assert!(!broken(|nodes| nodes[0].first_child = Some(NodeId::new(2))));
    assert!(!broken(|nodes| nodes[0].last_child = Some(NodeId::new(1))));
    assert!(!broken(|nodes| nodes[0].last_child = None));
    // a child of its own
    assert!(!broken(|nodes| nodes[1].first_child = Some(NodeId::new(1))));
    // more payloads than slots
    let mut dom = Dom::div();
    dom.arena.node_data.internal.push(NodeData::new(NodeType::Div));
    assert!(!dom.is_valid());
}
