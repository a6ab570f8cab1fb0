//! Event names and event filters: which events a callback listens to, and in
//! which category (hover, focus, inverse, window, desktop) it is dispatched.

use vstd::prelude::*;

verus! {

/// When to call a callback: the flat, user-facing event names.
#[derive(Debug, Copy, Clone, PartialEq, Eq, Structural, Hash, PartialOrd, Ord)]
pub enum On {
    /// Mouse cursor is hovering over the element
    MouseOver,
    /// Mouse cursor is over the element and a button is pressed
    MouseDown,
    /// Left mouse button has been pressed while the cursor was over the element
    LeftMouseDown,
    /// Middle mouse button has been pressed while the cursor was over the element
    MiddleMouseDown,
    /// Right mouse button has been pressed while the cursor was over the element
    RightMouseDown,
    /// Mouse button has been released while the cursor was over the element
    MouseUp,
    /// Left mouse button has been released while the cursor was over the element
    LeftMouseUp,
    /// Middle mouse button has been released while the cursor was over the element
    MiddleMouseUp,
    /// Right mouse button has been released while the cursor was over the element
    RightMouseUp,
    /// Mouse cursor has entered the element
    MouseEnter,
    /// Mouse cursor has left the element
    MouseLeave,
    /// Mousewheel / touchpad scrolling
    Scroll,
    /// The window received a unicode character
    TextInput,
    /// A virtual keycode was pressed
    VirtualKeyDown,
    /// A virtual keycode was released
    VirtualKeyUp,
    /// A file is being hovered over the element
    HoveredFile,
    /// A file has been dropped on the element
    DroppedFile,
    /// A file was hovered, but has left the window
    HoveredFileCancelled,
    /// The element received the focus
    FocusReceived,
    /// The element lost the focus
    FocusLost,
}

/// Events that reach a callback while the mouse is over the element.
#[derive(Debug, Copy, Clone, PartialEq, Eq, Structural, Hash, PartialOrd, Ord)]
pub enum HoverEventFilter {
    MouseOver,
    MouseDown,
    LeftMouseDown,
    RightMouseDown,
    MiddleMouseDown,
    MouseUp,
    LeftMouseUp,
    RightMouseUp,
    MiddleMouseUp,
    MouseEnter,
    MouseLeave,
    Scroll,
    TextInput,
    VirtualKeyDown,
    VirtualKeyUp,
    HoveredFile,
    DroppedFile,
    HoveredFileCancelled,
}

/// Events that reach a callback while the element is focused.
#[derive(Debug, Copy, Clone, PartialEq, Eq, Structural, Hash, PartialOrd, Ord)]
pub enum FocusEventFilter {
    MouseOver,
    MouseDown,
    LeftMouseDown,
    RightMouseDown,
    MiddleMouseDown,
    MouseUp,
    LeftMouseUp,
    RightMouseUp,
    MiddleMouseUp,
    MouseEnter,
    MouseLeave,
    Scroll,
    TextInput,
    VirtualKeyDown,
    VirtualKeyUp,
    FocusReceived,
    FocusLost,
}

/// Inverse filters: the callback fires when the event does *not* concern the
/// element (a click anywhere but on a popover, for instance).
#[derive(Debug, Copy, Clone, PartialEq, Eq, Structural, Hash, PartialOrd, Ord)]
pub enum NotEventFilter {
    Hover(HoverEventFilter),
    Focus(FocusEventFilter),
}

/// Events that concern the window as a whole, while the window is focused.
#[derive(Debug, Copy, Clone, PartialEq, Eq, Structural, Hash, PartialOrd, Ord)]
pub enum WindowEventFilter {
    MouseOver,
    MouseDown,
    LeftMouseDown,
    RightMouseDown,
    MiddleMouseDown,
    MouseUp,
    LeftMouseUp,
    RightMouseUp,
    MiddleMouseUp,
    MouseEnter,
    MouseLeave,
    Scroll,
    TextInput,
    VirtualKeyDown,
    VirtualKeyUp,
    HoveredFile,
    DroppedFile,
    HoveredFileCancelled,
}

/// Events of the desktop, delivered even when the window is not focused.
#[derive(Debug, Copy, Clone, PartialEq, Eq, Structural, Hash, PartialOrd, Ord)]
pub enum DesktopEventFilter {
    DeviceAdded,
    DeviceRemoved,
    ControllerMotion,
    AppSuspended,
    AppResumed,
    Awakened,
}

/// The target of a callback: one of five disjoint categories, each with its
/// own kind of event.
#[derive(Debug, Copy, Clone, PartialEq, Eq, Structural, Hash, PartialOrd, Ord)]
pub enum EventFilter {
    /// The mouse is over the element.
    Hover(HoverEventFilter),
    /// Inverse of `Hover` and `Focus`.
    Not(NotEventFilter),
    /// The element is focused.
    Focus(FocusEventFilter),
    /// Anything that happens to the window while it is focused.
    Window(WindowEventFilter),
    /// Anything that happens on the desktop.
    Desktop(DesktopEventFilter),
}

impl EventFilter {
    /// The hover kind, if this is a hover filter.
    pub fn as_hover_event_filter(&self) -> (kind: Option<HoverEventFilter>)
        ensures
            kind == (match *self {
                EventFilter::Hover(e) => Some(e),
                _ => None,
            }),
    {
        match self {
            EventFilter::Hover(e) => Some(*e),
            _ => None,
        }
    }

    /// The focus kind, if this is a focus filter.
    pub fn as_focus_event_filter(&self) -> (kind: Option<FocusEventFilter>)
        ensures
            kind == (match *self {
                EventFilter::Focus(e) => Some(e),
                _ => None,
            }),
    {
        match self {
            EventFilter::Focus(e) => Some(*e),
            _ => None,
        }
    }

    /// The inverse kind, if this is an inverse filter.
    pub fn as_not_event_filter(&self) -> (kind: Option<NotEventFilter>)
        ensures
            kind == (match *self {
                EventFilter::Not(e) => Some(e),
                _ => None,
            }),
    {
        match self {
            EventFilter::Not(e) => Some(*e),
            _ => None,
        }
    }

    /// The window kind, if this is a window filter.
    pub fn as_window_event_filter(&self) -> (kind: Option<WindowEventFilter>)
        ensures
            kind == (match *self {
                EventFilter::Window(e) => Some(e),
                _ => None,
            }),
    {
        match self {
            EventFilter::Window(e) => Some(*e),
            _ => None,
        }
    }

    /// The desktop kind, if this is a desktop filter.
    pub fn as_desktop_event_filter(&self) -> (kind: Option<DesktopEventFilter>)
        ensures
            kind == (match *self {
                EventFilter::Desktop(e) => Some(e),
                _ => None,
            }),
    {
        match self {
            EventFilter::Desktop(e) => Some(*e),
            _ => None,
        }
    }

    /// Whether dispatching this filter needs to know which element the
    /// pointer or the focus is on: true of hover, focus and inverse filters.
    pub open spec fn is_hit_testable(self) -> bool {
        self is Hover || self is Focus || self is Not
    }
}

/// The filter that an event name stands for. Every name has exactly one:
/// text input and focus changes are focus filters, the two virtual-key
/// events are window filters, everything else is a hover filter.
pub open spec fn filter_of(on: On) -> EventFilter {
    match on {
        On::MouseOver => EventFilter::Hover(HoverEventFilter::MouseOver),
        On::MouseDown => EventFilter::Hover(HoverEventFilter::MouseDown),
        On::LeftMouseDown => EventFilter::Hover(HoverEventFilter::LeftMouseDown),
        On::MiddleMouseDown => EventFilter::Hover(HoverEventFilter::MiddleMouseDown),
        On::RightMouseDown => EventFilter::Hover(HoverEventFilter::RightMouseDown),
        On::MouseUp => EventFilter::Hover(HoverEventFilter::MouseUp),
        On::LeftMouseUp => EventFilter::Hover(HoverEventFilter::LeftMouseUp),
        On::MiddleMouseUp => EventFilter::Hover(HoverEventFilter::MiddleMouseUp),
        On::RightMouseUp => EventFilter::Hover(HoverEventFilter::RightMouseUp),
        On::MouseEnter => EventFilter::Hover(HoverEventFilter::MouseEnter),
        On::MouseLeave => EventFilter::Hover(HoverEventFilter::MouseLeave),
        On::Scroll => EventFilter::Hover(HoverEventFilter::Scroll),
        On::TextInput => EventFilter::Focus(FocusEventFilter::TextInput),
        On::VirtualKeyDown => EventFilter::Window(WindowEventFilter::VirtualKeyDown),
        On::VirtualKeyUp => EventFilter::Window(WindowEventFilter::VirtualKeyUp),
        On::HoveredFile => EventFilter::Hover(HoverEventFilter::HoveredFile),
        On::DroppedFile => EventFilter::Hover(HoverEventFilter::DroppedFile),
        On::HoveredFileCancelled => EventFilter::Hover(HoverEventFilter::HoveredFileCancelled),
        On::FocusReceived => EventFilter::Focus(FocusEventFilter::FocusReceived),
        On::FocusLost => EventFilter::Focus(FocusEventFilter::FocusLost),
    }
}

impl vstd::std_specs::convert::FromSpecImpl<On> for EventFilter {
    open spec fn obeys_from_spec() -> bool {
        true
    }

    open spec fn from_spec(input: On) -> EventFilter {
        filter_of(input)
    }
}

impl From<On> for EventFilter {
    fn from(input: On) -> (filter: EventFilter)
        ensures
            filter == filter_of(input),
            (filter is Focus) <==> (input is TextInput || input is FocusReceived || input is FocusLost),
            (filter is Window) <==> (input is VirtualKeyDown || input is VirtualKeyUp),
            !(filter is Not) && !(filter is Desktop),
    {
        match input {
            On::MouseOver => EventFilter::Hover(HoverEventFilter::MouseOver),
            On::MouseDown => EventFilter::Hover(HoverEventFilter::MouseDown),
            On::LeftMouseDown => EventFilter::Hover(HoverEventFilter::LeftMouseDown),
            On::MiddleMouseDown => EventFilter::Hover(HoverEventFilter::MiddleMouseDown),
            On::RightMouseDown => EventFilter::Hover(HoverEventFilter::RightMouseDown),
            On::MouseUp => EventFilter::Hover(HoverEventFilter::MouseUp),
            On::LeftMouseUp => EventFilter::Hover(HoverEventFilter::LeftMouseUp),
            On::MiddleMouseUp => EventFilter::Hover(HoverEventFilter::MiddleMouseUp),
            On::RightMouseUp => EventFilter::Hover(HoverEventFilter::RightMouseUp),
            On::MouseEnter => EventFilter::Hover(HoverEventFilter::MouseEnter),
            On::MouseLeave => EventFilter::Hover(HoverEventFilter::MouseLeave),
            On::Scroll => EventFilter::Hover(HoverEventFilter::Scroll),
            On::TextInput => EventFilter::Focus(FocusEventFilter::TextInput),
            On::VirtualKeyDown => EventFilter::Window(WindowEventFilter::VirtualKeyDown),
            On::VirtualKeyUp => EventFilter::Window(WindowEventFilter::VirtualKeyUp),
            On::HoveredFile => EventFilter::Hover(HoverEventFilter::HoveredFile),
            On::DroppedFile => EventFilter::Hover(HoverEventFilter::DroppedFile),
            On::HoveredFileCancelled => EventFilter::Hover(HoverEventFilter::HoveredFileCancelled),
            On::FocusReceived => EventFilter::Focus(FocusEventFilter::FocusReceived),
            On::FocusLost => EventFilter::Focus(FocusEventFilter::FocusLost),
        }
    }
}

impl HoverEventFilter {
    /// The focus kind that corresponds to a hover kind: the kind of the same
    /// name. The three file-drag kinds have none, since a file is dragged
    /// over an element, not into the focus.
    pub open spec fn focus_equivalent(self) -> Option<FocusEventFilter> {
        match self {
            HoverEventFilter::MouseOver => Some(FocusEventFilter::MouseOver),
            HoverEventFilter::MouseDown => Some(FocusEventFilter::MouseDown),
            HoverEventFilter::LeftMouseDown => Some(FocusEventFilter::LeftMouseDown),
            HoverEventFilter::RightMouseDown => Some(FocusEventFilter::RightMouseDown),
            HoverEventFilter::MiddleMouseDown => Some(FocusEventFilter::MiddleMouseDown),
            HoverEventFilter::MouseUp => Some(FocusEventFilter::MouseUp),
            HoverEventFilter::LeftMouseUp => Some(FocusEventFilter::LeftMouseUp),
            HoverEventFilter::RightMouseUp => Some(FocusEventFilter::RightMouseUp),
            HoverEventFilter::MiddleMouseUp => Some(FocusEventFilter::MiddleMouseUp),
            HoverEventFilter::MouseEnter => Some(FocusEventFilter::MouseEnter),
            HoverEventFilter::MouseLeave => Some(FocusEventFilter::MouseLeave),
            HoverEventFilter::Scroll => Some(FocusEventFilter::Scroll),
            HoverEventFilter::TextInput => Some(FocusEventFilter::TextInput),
            HoverEventFilter::VirtualKeyDown => Some(FocusEventFilter::VirtualKeyDown),
            HoverEventFilter::VirtualKeyUp => Some(FocusEventFilter::VirtualKeyUp),
            HoverEventFilter::HoveredFile => None,
            HoverEventFilter::DroppedFile => None,
            HoverEventFilter::HoveredFileCancelled => None,
        }
    }

    /// The focus kind that corresponds to this hover kind, if there is one.
    pub fn to_focus_event_filter(&self) -> (focus: Option<FocusEventFilter>)
        ensures
            focus == self.focus_equivalent(),
            focus is None <==> (*self is HoveredFile || *self is DroppedFile
                || *self is HoveredFileCancelled),
    {
        match self {
            HoverEventFilter::MouseOver => Some(FocusEventFilter::MouseOver),
            HoverEventFilter::MouseDown => Some(FocusEventFilter::MouseDown),
            HoverEventFilter::LeftMouseDown => Some(FocusEventFilter::LeftMouseDown),
            HoverEventFilter::RightMouseDown => Some(FocusEventFilter::RightMouseDown),
            HoverEventFilter::MiddleMouseDown => Some(FocusEventFilter::MiddleMouseDown),
            HoverEventFilter::MouseUp => Some(FocusEventFilter::MouseUp),
            HoverEventFilter::LeftMouseUp => Some(FocusEventFilter::LeftMouseUp),
            HoverEventFilter::RightMouseUp => Some(FocusEventFilter::RightMouseUp),
            HoverEventFilter::MiddleMouseUp => Some(FocusEventFilter::MiddleMouseUp),
            HoverEventFilter::MouseEnter => Some(FocusEventFilter::MouseEnter),
            HoverEventFilter::MouseLeave => Some(FocusEventFilter::MouseLeave),
            HoverEventFilter::Scroll => Some(FocusEventFilter::Scroll),
            HoverEventFilter::TextInput => Some(FocusEventFilter::TextInput),
            HoverEventFilter::VirtualKeyDown => Some(FocusEventFilter::VirtualKeyDown),
            HoverEventFilter::VirtualKeyUp => Some(FocusEventFilter::VirtualKeyUp),
            HoverEventFilter::HoveredFile => None,
            HoverEventFilter::DroppedFile => None,
            HoverEventFilter::HoveredFileCancelled => None,
        }
    }
}

impl WindowEventFilter {
    /// The hover kind that corresponds to a window kind: the kind of the same
    /// name. Entering and leaving have none: the mouse entering or leaving
    /// the window is not the mouse entering or leaving an element.
    pub open spec fn hover_equivalent(self) -> Option<HoverEventFilter> {
        match self {
            WindowEventFilter::MouseOver => Some(HoverEventFilter::MouseOver),
            WindowEventFilter::MouseDown => Some(HoverEventFilter::MouseDown),
            WindowEventFilter::LeftMouseDown => Some(HoverEventFilter::LeftMouseDown),
            WindowEventFilter::RightMouseDown => Some(HoverEventFilter::RightMouseDown),
            WindowEventFilter::MiddleMouseDown => Some(HoverEventFilter::MiddleMouseDown),
            WindowEventFilter::MouseUp => Some(HoverEventFilter::MouseUp),
            WindowEventFilter::LeftMouseUp => Some(HoverEventFilter::LeftMouseUp),
            WindowEventFilter::RightMouseUp => Some(HoverEventFilter::RightMouseUp),
            WindowEventFilter::MiddleMouseUp => Some(HoverEventFilter::MiddleMouseUp),
            WindowEventFilter::Scroll => Some(HoverEventFilter::Scroll),
            WindowEventFilter::TextInput => Some(HoverEventFilter::TextInput),
            WindowEventFilter::VirtualKeyDown => Some(HoverEventFilter::VirtualKeyDown),
            WindowEventFilter::VirtualKeyUp => Some(HoverEventFilter::VirtualKeyUp),
            WindowEventFilter::HoveredFile => Some(HoverEventFilter::HoveredFile),
            WindowEventFilter::DroppedFile => Some(HoverEventFilter::DroppedFile),
            WindowEventFilter::HoveredFileCancelled => Some(HoverEventFilter::HoveredFileCancelled),
            WindowEventFilter::MouseEnter => None,
            WindowEventFilter::MouseLeave => None,
        }
    }

    /// The hover kind that corresponds to this window kind, if there is one.
    pub fn to_hover_event_filter(&self) -> (hover: Option<HoverEventFilter>)
        ensures
            hover == self.hover_equivalent(),
            hover is None <==> (*self is MouseEnter || *self is MouseLeave),
    {
        match self {
            WindowEventFilter::MouseOver => Some(HoverEventFilter::MouseOver),
            WindowEventFilter::MouseDown => Some(HoverEventFilter::MouseDown),
            WindowEventFilter::LeftMouseDown => Some(HoverEventFilter::LeftMouseDown),
            WindowEventFilter::RightMouseDown => Some(HoverEventFilter::RightMouseDown),
            WindowEventFilter::MiddleMouseDown => Some(HoverEventFilter::MiddleMouseDown),
            WindowEventFilter::MouseUp => Some(HoverEventFilter::MouseUp),
            WindowEventFilter::LeftMouseUp => Some(HoverEventFilter::LeftMouseUp),
            WindowEventFilter::RightMouseUp => Some(HoverEventFilter::RightMouseUp),
            WindowEventFilter::MiddleMouseUp => Some(HoverEventFilter::MiddleMouseUp),
            WindowEventFilter::Scroll => Some(HoverEventFilter::Scroll),
            WindowEventFilter::TextInput => Some(HoverEventFilter::TextInput),
            WindowEventFilter::VirtualKeyDown => Some(HoverEventFilter::VirtualKeyDown),
            WindowEventFilter::VirtualKeyUp => Some(HoverEventFilter::VirtualKeyUp),
            WindowEventFilter::HoveredFile => Some(HoverEventFilter::HoveredFile),
            WindowEventFilter::DroppedFile => Some(HoverEventFilter::DroppedFile),
            WindowEventFilter::HoveredFileCancelled => Some(HoverEventFilter::HoveredFileCancelled),
            WindowEventFilter::MouseEnter => None,
            WindowEventFilter::MouseLeave => None,
        }
    }
}

/// Different hover kinds have different focus kinds, and no hover kind
/// corresponds to a change of the focus.
pub proof fn lemma_focus_equivalent_is_injective(a: HoverEventFilter, b: HoverEventFilter)
    requires
        a.focus_equivalent() is Some,
        a.focus_equivalent() == b.focus_equivalent(),
    ensures
        a == b,
        a.focus_equivalent() != Some(FocusEventFilter::FocusReceived),
        a.focus_equivalent() != Some(FocusEventFilter::FocusLost),
{
}

/// Different window kinds have different hover kinds, and no window kind
/// corresponds to the mouse entering or leaving an element.
pub proof fn lemma_hover_equivalent_is_injective(a: WindowEventFilter, b: WindowEventFilter)
    requires
        a.hover_equivalent() is Some,
        a.hover_equivalent() == b.hover_equivalent(),
    ensures
        a == b,
        a.hover_equivalent() != Some(HoverEventFilter::MouseEnter),
        a.hover_equivalent() != Some(HoverEventFilter::MouseLeave),
{
}

/// Focus-traversal policy of an element.
#[derive(Debug, Copy, Clone, PartialEq, Eq, Structural, Hash, PartialOrd, Ord)]
pub enum TabIndex {
    /// Automatic tab index: the element is focusable, in document order.
    Auto,
    /// Tab index in relation to the parent element: such elements take
    /// precedence over the global order while the focus is inside the parent.
    OverrideInParent(usize),
    /// Tab index in the global order.
    Global(usize),
}

impl Default for TabIndex {
    fn default() -> (index: TabIndex)
        ensures
            index == TabIndex::Auto,
    {
        TabIndex::Auto
    }
}

} // verus!
