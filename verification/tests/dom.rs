use azul_dom::dom::Dom;
use azul_dom::id_tree::{Arena, Node, NodeId};
use azul_dom::node::{NodeData, NodeType};

#[test]
fn test_dom_sibling_1() {
    let dom = Dom::new(NodeType::Div)
        .with_child(
            Dom::new(NodeType::Div)
                .with_id("sibling-1")
                .with_child(Dom::new(NodeType::Div).with_id("sibling-1-child-1")),
        )
        .with_child(
            Dom::new(NodeType::Div)
                .with_id("sibling-2")
                .with_child(Dom::new(NodeType::Div).with_id("sibling-2-child-1")),
        );

    let arena = &dom.arena;

    assert_eq!(NodeId::new(0), dom.root);

    assert_eq!(
        vec![String::from("sibling-1")],
        arena
            .node_data
            .data(
                arena
                    .node_layout
                    .node(dom.root)
                    .first_child
                    .expect("root has no first child")
            )
            .ids
    );

    assert_eq!(
        vec![String::from("sibling-2")],
        arena
            .node_data
            .data(
                arena
                    .node_layout
                    .node(
                        arena
                            .node_layout
                            .node(dom.root)
                            .first_child
                            .expect("root has no first child")
                    )
                    .next_sibling
                    .expect("root has no second sibling")
            )
            .ids
    );

    assert_eq!(
        vec![String::from("sibling-1-child-1")],
        arena
            .node_data
            .data(
                arena
                    .node_layout
                    .node(
                        arena
                            .node_layout
                            .node(dom.root)
                            .first_child
                            .expect("root has no first child")
                    )
                    .first_child
                    .expect("first child has no first child")
            )
            .ids
    );

    assert_eq!(
        vec![String::from("sibling-2-child-1")],
        arena
            .node_data
            .data(
                arena
                    .node_layout
                    .node(
                        arena
                            .node_layout
                            .node(
                                arena
                                    .node_layout
                                    .node(dom.root)
                                    .first_child
                                    .expect("root has no first child")
                            )
                            .next_sibling
                            .expect("first child has no second sibling")
                    )
                    .first_child
                    .expect("second sibling has no first child")
            )
            .ids
    );
}

#[test]
fn test_dom_from_iter_1() {
    let dom = Dom::from_iter(
        (0..5)
            .map(|e| NodeData::new(NodeType::Label(format!("{}", e + 1))))
            .collect(),
    );
    let arena = &dom.arena;

    // We need to have 6 nodes:
    //
    // root                 NodeId(0)
    //   |-> 1              NodeId(1)
    //   |-> 2              NodeId(2)
    //   |-> 3              NodeId(3)
    //   |-> 4              NodeId(4)
    //   '-> 5              NodeId(5)

    assert_eq!(arena.len(), 6);

    // Check root node
    assert_eq!(
        arena.node_layout.get(NodeId::new(0)),
        Some(&Node {
            parent: None,
            previous_sibling: None,
            next_sibling: None,
            first_child: Some(NodeId::new(1)),
            last_child: Some(NodeId::new(5)),
        })
    );
    assert_eq!(
        arena.node_data.get(NodeId::new(0)),
        Some(&NodeData::new(NodeType::Div))
    );

    assert_eq!(
        arena
            .node_layout
            .get(NodeId::new(arena.node_layout.len() - 1)),
        Some(&Node {
            parent: Some(NodeId::new(0)),
            previous_sibling: Some(NodeId::new(4)),
            next_sibling: None,
            first_child: None,
            last_child: None,
        })
    );
    assert_eq!(
        arena.node_data.get(NodeId::new(arena.node_data.len() - 1)),
        Some(&NodeData {
            node_type: NodeType::Label(String::from("5")),
            ..Default::default()
        })
    );
}

/// Test that there shouldn't be a DOM that has 0 nodes
#[test]
fn test_zero_size_dom() {
    let mut null_dom = Dom::from_iter(
        (0..0)
            .map(|_| NodeData {
                node_type: NodeType::Div,
                ..Default::default()
            })
            .collect(),
    );

    assert!(null_dom.arena.len() == 1);

    null_dom.add_class("hello"); // should not panic
    null_dom.add_id("id-hello"); // should not panic
}

fn empty_dom() -> Dom {
    Dom {
        arena: Arena::new(),
        root: NodeId::new(0),
        head: NodeId::new(0),
    }
}

#[test]
fn new_dom_has_a_bare_root() {
    let dom = Dom::new(NodeType::Div);
    assert_eq!(dom.len(), 1);
    assert_eq!(dom.root, NodeId::new(0));
    assert_eq!(dom.head, NodeId::new(0));
    assert_eq!(dom.arena.node_layout.get(NodeId::new(0)), Some(&Node::new()));
    assert_eq!(
        dom.arena.node_data.get(NodeId::new(0)),
        Some(&NodeData::new(NodeType::Div))
    );
    assert_eq!(dom.arena.node_layout.get(NodeId::new(1)), None);
}

#[test]
fn add_child_adds_the_lengths() {
    let mut a = Dom::div().with_child(Dom::div());
    let b = Dom::div().with_child(Dom::div()).with_child(Dom::div());
    assert_eq!(a.len(), 2);
    assert_eq!(b.len(), 3);
    a.add_child(b);
    assert_eq!(a.len(), 5);
}

#[test]
fn add_child_to_an_empty_dom_takes_the_child() {
    let mut a = empty_dom();
    assert_eq!(a.len(), 0);
    let b = Dom::label("b").with_child(Dom::div());
    a.add_child(b);
    assert_eq!(a.len(), 2);
    assert_eq!(
        a.arena.node_data.data(NodeId::new(0)).node_type,
        NodeType::Label(String::from("b"))
    );
    assert_eq!(
        a.arena.node_layout.node(NodeId::new(0)).first_child,
        Some(NodeId::new(1))
    );
}

#[test]
fn add_child_of_an_empty_dom_changes_nothing() {
    let mut a = Dom::div().with_id("a");
    a.add_child(empty_dom());
    assert_eq!(a.len(), 1);
    assert_eq!(a.arena.node_layout.node(NodeId::new(0)), &Node::new());
    assert_eq!(a.arena.node_data.data(NodeId::new(0)).ids, vec![String::from("a")]);
}

#[test]
fn add_child_shifts_the_links_of_the_donor() {
    // receiver: 0 -> (1, 2); donor: 0 -> (1 -> (2), 3)
    let mut receiver = Dom::div().with_child(Dom::div()).with_child(Dom::div());
    let donor = Dom::div()
        .with_child(Dom::div().with_child(Dom::div()))
        .with_child(Dom::div());
    assert_eq!(
        donor.arena.node_layout.internal,
        vec![
            Node {
                parent: None,
                previous_sibling: None,
                next_sibling: None,
                first_child: Some(NodeId::new(1)),
                last_child: Some(NodeId::new(3)),
            },
            Node {
                parent: Some(NodeId::new(0)),
                previous_sibling: None,
                next_sibling: Some(NodeId::new(3)),
                first_child: Some(NodeId::new(2)),
                last_child: Some(NodeId::new(2)),
            },
            Node {
                parent: Some(NodeId::new(1)),
                previous_sibling: None,
                next_sibling: None,
                first_child: None,
                last_child: None,
            },
            Node {
                parent: Some(NodeId::new(0)),
                previous_sibling: Some(NodeId::new(1)),
                next_sibling: None,
                first_child: None,
                last_child: None,
            },
        ]
    );
    receiver.add_child(donor);
    assert_eq!(
        receiver.arena.node_layout.internal,
        vec![
            Node {
                parent: None,
                previous_sibling: None,
                next_sibling: None,
                first_child: Some(NodeId::new(1)),
                last_child: Some(NodeId::new(3)),
            },
            Node {
                parent: Some(NodeId::new(0)),
                previous_sibling: None,
                next_sibling: Some(NodeId::new(2)),
                first_child: None,
                last_child: None,
            },
            Node {
                parent: Some(NodeId::new(0)),
                previous_sibling: Some(NodeId::new(1)),
                next_sibling: Some(NodeId::new(3)),
                first_child: None,
                last_child: None,
            },
            Node {
                parent: Some(NodeId::new(0)),
                previous_sibling: Some(NodeId::new(2)),
                next_sibling: None,
                first_child: Some(NodeId::new(4)),
                last_child: Some(NodeId::new(6)),
            },
            Node {
                parent: Some(NodeId::new(3)),
                previous_sibling: None,
                next_sibling: Some(NodeId::new(6)),
                first_child: Some(NodeId::new(5)),
                last_child: Some(NodeId::new(5)),
            },
            Node {
                parent: Some(NodeId::new(4)),
                previous_sibling: None,
                next_sibling: None,
                first_child: None,
                last_child: None,
            },
            Node {
                parent: Some(NodeId::new(3)),
                previous_sibling: Some(NodeId::new(4)),
                next_sibling: None,
                first_child: None,
                last_child: None,
            },
        ]
    );
    assert_eq!(receiver.root, NodeId::new(0));
    assert_eq!(receiver.head, NodeId::new(0));
}

#[test]
fn add_child_under_a_head_that_is_not_the_root() {
    // 0 -> (1, 2), insertion point at 1
    let mut dom = Dom::div().with_child(Dom::div()).with_child(Dom::div());
    dom.head = NodeId::new(1);
    dom.add_child(Dom::label("x"));
    assert_eq!(dom.len(), 4);
    assert_eq!(
        dom.arena.node_layout.node(NodeId::new(1)),
        &Node {
            parent: Some(NodeId::new(0)),
            previous_sibling: None,
            next_sibling: Some(NodeId::new(2)),
            first_child: Some(NodeId::new(3)),
            last_child: Some(NodeId::new(3)),
        }
    );
    assert_eq!(
        dom.arena.node_layout.node(NodeId::new(3)),
        &Node {
            parent: Some(NodeId::new(1)),
            previous_sibling: None,
            next_sibling: None,
            first_child: None,
            last_child: None,
        }
    );
    assert_eq!(dom.head, NodeId::new(1));
}

#[test]
fn from_iter_links_the_items_in_order() {
    let dom = Dom::from_iter(vec![
        NodeData::new(NodeType::Label(String::from("a"))),
        NodeData::new(NodeType::Label(String::from("b"))),
        NodeData::new(NodeType::Label(String::from("c"))),
    ]);
    assert_eq!(dom.len(), 4);
    let layout = &dom.arena.node_layout;
    assert_eq!(layout.node(NodeId::new(0)).first_child, Some(NodeId::new(1)));
    assert_eq!(layout.node(NodeId::new(0)).last_child, Some(NodeId::new(3)));
    for i in 1..4usize {
        let node = layout.node(NodeId::new(i));
        assert_eq!(node.parent, Some(NodeId::new(0)));
        assert_eq!(
            node.previous_sibling,
            if i == 1 { None } else { Some(NodeId::new(i - 1)) }
        );
        assert_eq!(
            node.next_sibling,
            if i == 3 { None } else { Some(NodeId::new(i + 1)) }
        );
        assert_eq!(node.first_child, None);
        assert_eq!(node.last_child, None);
    }
    assert_eq!(
        dom.arena.node_data.data(NodeId::new(2)).node_type,
        NodeType::Label(String::from("b"))
    );
}

#[test]
fn from_iter_of_one_item() {
    let dom = Dom::from_iter(vec![NodeData::new(NodeType::Div)]);
    assert_eq!(dom.len(), 2);
    assert_eq!(
        dom.arena.node_layout.node(NodeId::new(0)),
        &Node {
            parent: None,
            previous_sibling: None,
            next_sibling: None,
            first_child: Some(NodeId::new(1)),
            last_child: Some(NodeId::new(1)),
        }
    );
    assert_eq!(
        dom.arena.node_layout.node(NodeId::new(1)),
        &Node {
            parent: Some(NodeId::new(0)),
            previous_sibling: None,
            next_sibling: None,
            first_child: None,
            last_child: None,
        }
    );
}

#[test]
fn documents_are_compared_slot_by_slot() {
    let build = || {
        Dom::div()
            .with_id("a")
            .with_child(Dom::label("x").with_class("c"))
            .with_child(Dom::div())
    };
    assert_eq!(build(), build());
    assert_eq!(build().clone(), build());
    assert!(build() != build().with_id("b"));
    assert!(build() != build().with_child(Dom::div()));
    let mut moved = build();
    moved.head = NodeId::new(1);
    assert!(build() != moved);
    // the same nodes, linked otherwise
    let other = Dom::div()
        .with_id("a")
        .with_child(Dom::label("x").with_class("c").with_child(Dom::div()));
    assert_eq!(other.len(), build().len());
    assert!(build() != other);
    assert!(empty_dom() == empty_dom());
    assert_eq!(empty_dom().clone().len(), 0);
}

#[test]
fn arena_grows_slot_by_slot() {
    let mut arena: Arena<u8> = Arena::new();
    assert_eq!(arena.len(), 0);
    assert_eq!(arena.new_node(7), NodeId::new(0));
    assert_eq!(arena.new_node(8), NodeId::new(1));
    assert_eq!(arena.len(), 2);
    assert_eq!(arena.node_data.get(NodeId::new(1)), Some(&8));
    assert_eq!(arena.node_data.get(NodeId::new(2)), None);
    assert_eq!(arena.node_layout.get(NodeId::new(1)), Some(&Node::new()));
    assert_eq!(arena.node_layout.get(NodeId::new(2)), None);

    let mut other: Arena<u8> = Arena::with_capacity(4);
    let id = other.new_node(9);
    other.node_layout.internal[id.index()].parent = Some(NodeId::new(0));
    arena.append_arena(&mut other);
    assert_eq!(arena.len(), 3);
    assert_eq!(other.len(), 0);
    assert_eq!(other.node_data.len(), 0);
    assert_eq!(arena.node_data.internal, vec![7, 8, 9]);
    // links are moved as they are
    assert_eq!(
        arena.node_layout.node(NodeId::new(2)).parent,
        Some(NodeId::new(0))
    );
    assert_eq!(NodeId::new(5).index(), 5);
}
