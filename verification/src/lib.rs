//! Document tree of a retained-mode GUI toolkit: an arena-backed node tree with
//! builder-style construction, and the event dispatch tables derived from it.

pub mod callbacks;
pub mod dom;
pub mod encoding;
pub mod events;
pub mod hash;
pub mod id_tree;
pub mod listing;
pub mod node;
pub mod preorder;
pub mod splice;
pub mod tags;
pub mod ui_state;
pub mod walk;

pub use crate::dom::Dom;
pub use crate::events::{DesktopEventFilter, EventFilter, FocusEventFilter, HoverEventFilter,
    NotEventFilter, On, TabIndex, WindowEventFilter};
pub use crate::hash::DomHash;
pub use crate::id_tree::{Node, NodeHierarchy, NodeId};
pub use crate::node::{Callback, GlTextureCallback, IFrameCallback, NodeData, NodeType};
pub use crate::ui_state::UiState;
