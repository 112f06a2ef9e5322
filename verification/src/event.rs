//! Input events as the widget state machines see them.
//!
//! The host event loop translates raw window events into these plain
//! values. Mouse-button and touch events with the same meaning are folded
//! into one variant each, since every widget treats them alike; the
//! pointer's position travels separately as a [`Cursor`](crate::geometry::Cursor).

use vstd::prelude::*;

verus! {

/// A keyboard key, reduced to what the widgets distinguish.
#[derive(Clone, Copy, PartialEq, Eq, Structural, Debug)]
pub enum Key {
    /// The confirm key.
    Enter,
    /// The space bar.
    Space,
    /// The focus-traversal key.
    Tab,
    /// Any other key.
    Other,
}

/// Whether a key activates a focused widget (confirm or space-equivalent).
pub open spec fn spec_is_activate_key(k: Key) -> bool {
    k == Key::Enter || k == Key::Space
}

/// A raw input event dispatched through the widget tree.
#[derive(Clone, Copy, PartialEq, Eq, Structural, Debug)]
pub enum Event {
    /// The primary mouse button went down, or a touch began.
    PointerPressed,
    /// The primary mouse button was released, or a touch ended.
    PointerReleased,
    /// A touch was cancelled by the system; no release will follow.
    PointerLost,
    /// A key went down, with the state of the shift modifier.
    KeyPressed {
        /// The pressed key.
        key: Key,
        /// Whether shift was held.
        shift: bool,
    },
    /// Any event the widgets do not react to.
    Other,
}

/// Whether a key activates a focused widget.
pub fn is_activate_key(k: Key) -> (b: bool)
    ensures
        b == spec_is_activate_key(k),
{
    match k {
        Key::Enter => true,
        Key::Space => true,
        _ => false,
    }
}

} // verus!
