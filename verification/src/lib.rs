//! Focus-aware interactive widgets with a verified focus-management core.
//!
//! The crate models a tree of interactive widgets (buttons, text inputs,
//! pick lists, mouse areas and row/column containers), dispatches input
//! events through the tree with child-before-parent capture precedence,
//! and runs tree-wide focus operations (focus the next or previous
//! focusable widget, find the focused one) as single synchronous walks.
//!
//! The central guarantees are stated as contracts and proved:
//! at most one widget is focused after any event or focus operation,
//! focus and blur notifications fire exactly once per transition,
//! disabled widgets never gain focus, and cycling focus forward and then
//! backward returns to where it started.

pub mod event;
pub mod geometry;
pub mod helpers;
pub mod identity;
pub mod widget;

pub use crate::helpers::column;
pub use crate::helpers::focusable_button;
pub use crate::helpers::focusable_text_input;
pub use crate::helpers::mouse_area;
pub use crate::helpers::pick_list;
pub use crate::helpers::row;
