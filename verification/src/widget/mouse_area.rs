//! A container for capturing mouse events over a region.
//!
//! A mouse area wraps one child widget. During event dispatch the child
//! runs first; only when the child leaves the event uncaptured does the
//! area react, emitting its press or release message when the pointer is
//! inside its bounds.

use vstd::prelude::*;

use crate::event::Event;
use crate::geometry::{spec_is_over, Cursor, Rect};
use crate::widget::Widget;

verus! {

/// A region that reacts to pointer presses and releases over one child.
pub struct MouseArea<M> {
    /// The wrapped content.
    pub child: Box<Widget<M>>,
    /// The region that reacts to the pointer.
    pub bounds: Rect,
    /// The message produced when the pointer is pressed inside the
    /// bounds.
    pub on_press: Option<M>,
    /// The message produced when the pointer is released inside the
    /// bounds.
    pub on_release: Option<M>,
}

impl<M> MouseArea<M> {
    /// The messages one event emits from the area itself (the child's
    /// messages are collected by the tree walk).
    pub open spec fn spec_step_msgs(&self, ev: Event, cur: Cursor) -> Seq<M> {
        match ev {
            Event::PointerPressed => {
                if spec_is_over(cur, self.bounds) {
                    crate::widget::button::opt_msgs(self.on_press)
                } else {
                    Seq::empty()
                }
            }
            Event::PointerReleased => {
                if spec_is_over(cur, self.bounds) {
                    crate::widget::button::opt_msgs(self.on_release)
                } else {
                    Seq::empty()
                }
            }
            _ => Seq::empty(),
        }
    }

    /// Whether the area itself captures one event: a press or release
    /// inside its bounds for which a handler is set.
    pub open spec fn spec_step_captured(&self, ev: Event, cur: Cursor) -> bool {
        match ev {
            Event::PointerPressed => self.on_press is Some && spec_is_over(cur, self.bounds),
            Event::PointerReleased => self.on_release is Some && spec_is_over(cur, self.bounds),
            _ => false,
        }
    }
}

impl<M: Copy> MouseArea<M> {
    /// Handles one event on the area itself, assuming the child left it
    /// uncaptured. Emitted messages are appended to `out`; the result
    /// says whether the area captured the event.
    pub fn update(&self, event: &Event, cursor: Cursor, out: &mut Vec<M>) -> (captured: bool)
        ensures
            final(out)@ == old(out)@ + self.spec_step_msgs(*event, cursor),
            captured == self.spec_step_captured(*event, cursor),
    {
        match *event {
            Event::PointerPressed => {
                if cursor.is_over(&self.bounds) {
                    if let Option::Some(m) = self.on_press {
                        out.push(m);
                        true
                    } else {
                        false
                    }
                } else {
                    false
                }
            }
            Event::PointerReleased => {
                if cursor.is_over(&self.bounds) {
                    if let Option::Some(m) = self.on_release {
                        out.push(m);
                        true
                    } else {
                        false
                    }
                } else {
                    false
                }
            }
            _ => false,
        }
    }
}

impl<M> MouseArea<M> {
    /// Creates a mouse area wrapping the given widget.
    pub fn new(child: Widget<M>) -> (a: MouseArea<M>)
        ensures
            *a.child == child,
            a.bounds == (Rect { x: 0, y: 0, width: 0, height: 0 }),
            a.on_press is None,
            a.on_release is None,
    {
        MouseArea {
            child: Box::new(child),
            bounds: Rect { x: 0, y: 0, width: 0, height: 0 },
            on_press: Option::None,
            on_release: Option::None,
        }
    }

    /// Sets the message produced when the pointer is pressed inside the
    /// bounds.
    pub fn on_press(self, m: M) -> (a: MouseArea<M>)
        ensures
            a == (MouseArea { on_press: Option::Some(m), ..self }),
    {
        MouseArea { on_press: Option::Some(m), ..self }
    }

    /// Sets the message produced when the pointer is released inside the
    /// bounds.
    pub fn on_release(self, m: M) -> (a: MouseArea<M>)
        ensures
            a == (MouseArea { on_release: Option::Some(m), ..self }),
    {
        MouseArea { on_release: Option::Some(m), ..self }
    }

    /// Sets the region that reacts to the pointer.
    pub fn bounds(self, bounds: Rect) -> (a: MouseArea<M>)
        ensures
            a == (MouseArea { bounds, ..self }),
    {
        MouseArea { bounds, ..self }
    }
}

} // verus!
