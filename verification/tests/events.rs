use azul_dom::events::{
    DesktopEventFilter, EventFilter, FocusEventFilter, HoverEventFilter, NotEventFilter, On,
    TabIndex, WindowEventFilter,
};

#[test]
fn event_names_map_to_filters() {
    let hover = [
        (On::MouseOver, HoverEventFilter::MouseOver),
        (On::MouseDown, HoverEventFilter::MouseDown),
        (On::LeftMouseDown, HoverEventFilter::LeftMouseDown),
        (On::MiddleMouseDown, HoverEventFilter::MiddleMouseDown),
        (On::RightMouseDown, HoverEventFilter::RightMouseDown),
        (On::MouseUp, HoverEventFilter::MouseUp),
        (On::LeftMouseUp, HoverEventFilter::LeftMouseUp),
        (On::MiddleMouseUp, HoverEventFilter::MiddleMouseUp),
        (On::RightMouseUp, HoverEventFilter::RightMouseUp),
        (On::MouseEnter, HoverEventFilter::MouseEnter),
        (On::MouseLeave, HoverEventFilter::MouseLeave),
        (On::Scroll, HoverEventFilter::Scroll),
        (On::HoveredFile, HoverEventFilter::HoveredFile),
        (On::DroppedFile, HoverEventFilter::DroppedFile),
        (On::HoveredFileCancelled, HoverEventFilter::HoveredFileCancelled),
    ];
    for (on, kind) in hover.iter() {
        assert_eq!(EventFilter::from(*on), EventFilter::Hover(*kind));
    }
    assert_eq!(
        EventFilter::from(On::TextInput),
        EventFilter::Focus(FocusEventFilter::TextInput)
    );
    assert_eq!(
        EventFilter::from(On::FocusReceived),
        EventFilter::Focus(FocusEventFilter::FocusReceived)
    );
    assert_eq!(
        EventFilter::from(On::FocusLost),
        EventFilter::Focus(FocusEventFilter::FocusLost)
    );
    assert_eq!(
        EventFilter::from(On::VirtualKeyDown),
        EventFilter::Window(WindowEventFilter::VirtualKeyDown)
    );
    assert_eq!(
        EventFilter::from(On::VirtualKeyUp),
        EventFilter::Window(WindowEventFilter::VirtualKeyUp)
    );
    let filter: EventFilter = On::MouseUp.into();
    assert_eq!(filter, EventFilter::Hover(HoverEventFilter::MouseUp));
}

#[test]
fn projections_give_the_kind_of_their_category_only() {
    let hover = EventFilter::Hover(HoverEventFilter::Scroll);
    let focus = EventFilter::Focus(FocusEventFilter::FocusLost);
    let not = EventFilter::Not(NotEventFilter::Focus(FocusEventFilter::TextInput));
    let window = EventFilter::Window(WindowEventFilter::MouseEnter);
    let desktop = EventFilter::Desktop(DesktopEventFilter::Awakened);

    assert_eq!(hover.as_hover_event_filter(), Some(HoverEventFilter::Scroll));
    assert_eq!(hover.as_focus_event_filter(), None);
    assert_eq!(hover.as_not_event_filter(), None);
    assert_eq!(hover.as_window_event_filter(), None);
    assert_eq!(hover.as_desktop_event_filter(), None);

    assert_eq!(focus.as_focus_event_filter(), Some(FocusEventFilter::FocusLost));
    assert_eq!(focus.as_hover_event_filter(), None);

    assert_eq!(
        not.as_not_event_filter(),
        Some(NotEventFilter::Focus(FocusEventFilter::TextInput))
    );
    assert_eq!(not.as_focus_event_filter(), None);

    assert_eq!(
        window.as_window_event_filter(),
        Some(WindowEventFilter::MouseEnter)
    );
    assert_eq!(window.as_hover_event_filter(), None);

    assert_eq!(
        desktop.as_desktop_event_filter(),
        Some(DesktopEventFilter::Awakened)
    );
    assert_eq!(desktop.as_window_event_filter(), None);
}

#[test]
fn hover_kinds_have_a_focus_kind_but_for_file_drags() {
    assert_eq!(
        HoverEventFilter::MouseOver.to_focus_event_filter(),
        Some(FocusEventFilter::MouseOver)
    );
    assert_eq!(
        HoverEventFilter::RightMouseUp.to_focus_event_filter(),
        Some(FocusEventFilter::RightMouseUp)
    );
    assert_eq!(
        HoverEventFilter::TextInput.to_focus_event_filter(),
        Some(FocusEventFilter::TextInput)
    );
    assert_eq!(
        HoverEventFilter::VirtualKeyDown.to_focus_event_filter(),
        Some(FocusEventFilter::VirtualKeyDown)
    );
    assert_eq!(
        HoverEventFilter::VirtualKeyUp.to_focus_event_filter(),
        Some(FocusEventFilter::VirtualKeyUp)
    );
    assert_eq!(HoverEventFilter::HoveredFile.to_focus_event_filter(), None);
    assert_eq!(HoverEventFilter::DroppedFile.to_focus_event_filter(), None);
    assert_eq!(
        HoverEventFilter::HoveredFileCancelled.to_focus_event_filter(),
        None
    );
}

#[test]
fn window_kinds_have_a_hover_kind_but_for_enter_and_leave() {
    assert_eq!(
        WindowEventFilter::MouseOver.to_hover_event_filter(),
        Some(HoverEventFilter::MouseOver)
    );
    assert_eq!(
        WindowEventFilter::Scroll.to_hover_event_filter(),
        Some(HoverEventFilter::Scroll)
    );
    assert_eq!(
        WindowEventFilter::DroppedFile.to_hover_event_filter(),
        Some(HoverEventFilter::DroppedFile)
    );
    assert_eq!(
        WindowEventFilter::VirtualKeyUp.to_hover_event_filter(),
        Some(HoverEventFilter::VirtualKeyUp)
    );
    assert_eq!(WindowEventFilter::MouseEnter.to_hover_event_filter(), None);
    assert_eq!(WindowEventFilter::MouseLeave.to_hover_event_filter(), None);
}

#[test]
fn tab_index_defaults_to_auto() {
    assert_eq!(TabIndex::default(), TabIndex::Auto);
}

#[test]
fn equivalent_kinds_have_the_same_name() {
    let hover = [
        HoverEventFilter::MouseOver,
        HoverEventFilter::MouseDown,
        HoverEventFilter::LeftMouseDown,
        HoverEventFilter::RightMouseDown,
        HoverEventFilter::MiddleMouseDown,
        HoverEventFilter::MouseUp,
        HoverEventFilter::LeftMouseUp,
        HoverEventFilter::RightMouseUp,
        HoverEventFilter::MiddleMouseUp,
        HoverEventFilter::MouseEnter,
        HoverEventFilter::MouseLeave,
        HoverEventFilter::Scroll,
        HoverEventFilter::TextInput,
        HoverEventFilter::VirtualKeyDown,
        HoverEventFilter::VirtualKeyUp,
    ];
    let focus = [
        FocusEventFilter::MouseOver,
        FocusEventFilter::MouseDown,
        FocusEventFilter::LeftMouseDown,
        FocusEventFilter::RightMouseDown,
        FocusEventFilter::MiddleMouseDown,
        FocusEventFilter::MouseUp,
        FocusEventFilter::LeftMouseUp,
        FocusEventFilter::RightMouseUp,
        FocusEventFilter::MiddleMouseUp,
        FocusEventFilter::MouseEnter,
        FocusEventFilter::MouseLeave,
        FocusEventFilter::Scroll,
        FocusEventFilter::TextInput,
        FocusEventFilter::VirtualKeyDown,
        FocusEventFilter::VirtualKeyUp,
    ];
    for (kind, expected) in hover.iter().zip(focus.iter()) {
        assert_eq!(kind.to_focus_event_filter(), Some(*expected));
        assert_eq!(format!("{:?}", kind), format!("{:?}", expected));
    }

    let window = [
        WindowEventFilter::MouseOver,
        WindowEventFilter::MouseDown,
        WindowEventFilter::LeftMouseDown,
        WindowEventFilter::RightMouseDown,
        WindowEventFilter::MiddleMouseDown,
        WindowEventFilter::MouseUp,
        WindowEventFilter::LeftMouseUp,
        WindowEventFilter::RightMouseUp,
        WindowEventFilter::MiddleMouseUp,
        WindowEventFilter::Scroll,
        WindowEventFilter::TextInput,
        WindowEventFilter::VirtualKeyDown,
        WindowEventFilter::VirtualKeyUp,
        WindowEventFilter::HoveredFile,
        WindowEventFilter::DroppedFile,
        WindowEventFilter::HoveredFileCancelled,
    ];
    let hover = [
        HoverEventFilter::MouseOver,
        HoverEventFilter::MouseDown,
        HoverEventFilter::LeftMouseDown,
        HoverEventFilter::RightMouseDown,
        HoverEventFilter::MiddleMouseDown,
        HoverEventFilter::MouseUp,
        HoverEventFilter::LeftMouseUp,
        HoverEventFilter::RightMouseUp,
        HoverEventFilter::MiddleMouseUp,
        HoverEventFilter::Scroll,
        HoverEventFilter::TextInput,
        HoverEventFilter::VirtualKeyDown,
        HoverEventFilter::VirtualKeyUp,
        HoverEventFilter::HoveredFile,
        HoverEventFilter::DroppedFile,
        HoverEventFilter::HoveredFileCancelled,
    ];
    for (kind, expected) in window.iter().zip(hover.iter()) {
        assert_eq!(kind.to_hover_event_filter(), Some(*expected));
        assert_eq!(format!("{:?}", kind), format!("{:?}", expected));
    }
}
