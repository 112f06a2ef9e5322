//! A focusable text field.
//!
//! Structurally the text input mirrors the button's focus state machine,
//! with a text buffer in place of the activation payload: it always
//! accepts focus, gains it from a pointer press inside its bounds, loses
//! it from a press outside, and announces each transition exactly once
//! through its focus and blur messages.

use vstd::prelude::*;

use crate::event::Event;
use crate::geometry::{spec_is_over, Cursor, Rect};
use crate::identity::Identity;
use crate::widget::button::{count_msg, opt_msgs, FocusStep, State, Status};
use crate::widget::operation::Focusable;

verus! {

/// A focusable text field: a placeholder, the current value, optional
/// focus and blur messages, an identity, a bounding box and its runtime
/// state.
pub struct TextInput<M> {
    /// The placeholder shown while the value is empty.
    pub placeholder: String,
    /// The current contents of the field.
    pub value: String,
    /// The message produced when the field gains focus.
    pub on_focus: Option<M>,
    /// The message produced when the field loses focus.
    pub on_blur: Option<M>,
    /// The identity addressing this field across rebuilds.
    pub id: Option<Identity>,
    /// The bounding box the layout pass assigned to the field.
    pub bounds: Rect,
    /// The runtime state.
    pub state: State,
}

impl<M> TextInput<M> {
    /// A text input is never disabled: its buffer is its payload.
    pub open spec fn wf(&self) -> bool {
        !(self.state.status is Disabled)
    }

    /// The notifications owed for a focus transition that has not been
    /// announced yet.
    pub open spec fn spec_sync_msgs(&self) -> Seq<M> {
        if self.state.is_focused != self.state.was_focused {
            if self.state.is_focused {
                opt_msgs(self.on_focus)
            } else {
                opt_msgs(self.on_blur)
            }
        } else {
            Seq::empty()
        }
    }

    /// The field after its pending focus transition has been announced.
    pub open spec fn spec_synced(&self) -> TextInput<M> {
        TextInput {
            state: State { was_focused: self.state.is_focused, ..self.state },
            ..*self
        }
    }

    /// The state after one event, evaluated on an already-synced field:
    /// a press inside the bounds focuses it, a press outside blurs it,
    /// a release or a cancelled touch ends a press.
    pub open spec fn spec_step_state(&self, ev: Event, cur: Cursor) -> State {
        let s = self.state;
        match ev {
            Event::PointerPressed => {
                if spec_is_over(cur, self.bounds) {
                    State { is_focused: true, was_focused: true, status: Status::Pressed }
                } else {
                    State { is_focused: false, was_focused: false, status: s.status }
                }
            }
            Event::PointerReleased => {
                if s.status is Pressed {
                    State { status: Status::Active, ..s }
                } else {
                    s
                }
            }
            Event::PointerLost => State { status: Status::Active, ..s },
            _ => s,
        }
    }

    /// The messages one event emits, evaluated on an already-synced
    /// field.
    pub open spec fn spec_step_msgs(&self, ev: Event, cur: Cursor) -> Seq<M> {
        let s = self.state;
        match ev {
            Event::PointerPressed => {
                if spec_is_over(cur, self.bounds) {
                    if !s.is_focused {
                        opt_msgs(self.on_focus)
                    } else {
                        Seq::empty()
                    }
                } else {
                    if s.is_focused {
                        opt_msgs(self.on_blur)
                    } else {
                        Seq::empty()
                    }
                }
            }
            _ => Seq::empty(),
        }
    }

    /// Whether one event is captured, evaluated on an already-synced
    /// field: a press inside the bounds, or the release that ends a
    /// press.
    pub open spec fn spec_step_captured(&self, ev: Event, cur: Cursor) -> bool {
        let s = self.state;
        match ev {
            Event::PointerPressed => spec_is_over(cur, self.bounds),
            Event::PointerReleased => s.status is Pressed,
            _ => false,
        }
    }
}

impl<M: Copy> TextInput<M> {
    /// Handles one event on this field's state: first announces any
    /// pending focus transition, then applies the event. Emitted
    /// messages are appended to `out` in order; the result says whether
    /// the field captured the event.
    pub fn update(&mut self, event: &Event, cursor: Cursor, out: &mut Vec<M>) -> (captured: bool)
        requires
            old(self).wf(),
        ensures
            final(self).wf(),
            final(self).state == old(self).spec_synced().spec_step_state(*event, cursor),
            final(self).placeholder == old(self).placeholder,
            final(self).value == old(self).value,
            final(self).on_focus == old(self).on_focus,
            final(self).on_blur == old(self).on_blur,
            final(self).id == old(self).id,
            final(self).bounds == old(self).bounds,
            final(out)@ == old(out)@ + old(self).spec_sync_msgs()
                + old(self).spec_synced().spec_step_msgs(*event, cursor),
            captured == old(self).spec_synced().spec_step_captured(*event, cursor),
    {
        if self.state.is_focused != self.state.was_focused {
            if self.state.is_focused {
                if let Option::Some(m) = self.on_focus {
                    out.push(m);
                }
            } else {
                if let Option::Some(m) = self.on_blur {
                    out.push(m);
                }
            }
            self.state.was_focused = self.state.is_focused;
        }

        match *event {
            Event::PointerPressed => {
                if cursor.is_over(&self.bounds) {
                    self.state.status = Status::Pressed;
                    if !self.state.is_focused {
                        if let Option::Some(m) = self.on_focus {
                            out.push(m);
                        }
                    }
                    self.state.is_focused = true;
                    self.state.was_focused = true;
                    true
                } else {
                    if self.state.is_focused {
                        if let Option::Some(m) = self.on_blur {
                            out.push(m);
                        }
                    }
                    self.state.is_focused = false;
                    self.state.was_focused = false;
                    false
                }
            }
            Event::PointerReleased => {
                if self.state.status == Status::Pressed {
                    self.state.status = Status::Active;
                    true
                } else {
                    false
                }
            }
            Event::PointerLost => {
                self.state.status = Status::Active;
                false
            }
            _ => false,
        }
    }
}

impl<M> TextInput<M> {
    /// Creates a new text input with the given placeholder and value.
    pub fn new(placeholder: String, value: String) -> (t: TextInput<M>)
        ensures
            t.placeholder == placeholder,
            t.value == value,
            t.on_focus is None,
            t.on_blur is None,
            t.id is None,
            t.bounds == (Rect { x: 0, y: 0, width: 0, height: 0 }),
            t.state == (State { is_focused: false, was_focused: false, status: Status::Active }),
            t.wf(),
    {
        TextInput {
            placeholder,
            value,
            on_focus: Option::None,
            on_blur: Option::None,
            id: Option::None,
            bounds: Rect { x: 0, y: 0, width: 0, height: 0 },
            state: State { is_focused: false, was_focused: false, status: Status::Active },
        }
    }

    /// Sets the message produced when the field gains focus.
    pub fn on_focus(self, m: M) -> (t: TextInput<M>)
        ensures
            t == (TextInput { on_focus: Option::Some(m), ..self }),
    {
        TextInput { on_focus: Option::Some(m), ..self }
    }

    /// Sets the message produced when the field loses focus.
    pub fn on_blur(self, m: M) -> (t: TextInput<M>)
        ensures
            t == (TextInput { on_blur: Option::Some(m), ..self }),
    {
        TextInput { on_blur: Option::Some(m), ..self }
    }

    /// Sets the identity of the field.
    pub fn id(self, id: Identity) -> (t: TextInput<M>)
        ensures
            t == (TextInput { id: Option::Some(id), ..self }),
    {
        TextInput { id: Option::Some(id), ..self }
    }

    /// Sets the bounding box the layout pass assigned to the field.
    pub fn bounds(self, bounds: Rect) -> (t: TextInput<M>)
        ensures
            t == (TextInput { bounds, ..self }),
    {
        TextInput { bounds, ..self }
    }
}


/// The field after one focus step: an input event is handled by the
/// field's state machine; a tree-wide operation grants or revokes focus
/// through the capability.
pub open spec fn spec_step_apply<M>(t: TextInput<M>, step: FocusStep) -> TextInput<M> {
    match step {
        FocusStep::Input(ev, cur) => (TextInput {
            state: t.spec_synced().spec_step_state(ev, cur),
            ..t
        }),
        FocusStep::Grant => (TextInput {
            state: if t.state.spec_enabled() {
                t.state.spec_with_focus(true)
            } else {
                t.state
            },
            ..t
        }),
        FocusStep::Revoke => (TextInput { state: t.state.spec_with_focus(false), ..t }),
    }
}

/// The messages one focus step emits from the field.
pub open spec fn spec_step_out<M>(t: TextInput<M>, step: FocusStep) -> Seq<M> {
    match step {
        FocusStep::Input(ev, cur) => t.spec_sync_msgs() + t.spec_synced().spec_step_msgs(ev, cur),
        FocusStep::Grant => Seq::empty(),
        FocusStep::Revoke => Seq::empty(),
    }
}

/// The field after a sequence of focus steps.
pub open spec fn spec_run_steps<M>(t: TextInput<M>, steps: Seq<FocusStep>) -> TextInput<M>
    decreases steps.len(),
{
    if steps.len() == 0 {
        t
    } else {
        spec_run_steps(spec_step_apply(t, steps[0]), steps.drop_first())
    }
}

/// All messages a sequence of focus steps emits, in order.
pub open spec fn spec_run_out<M>(t: TextInput<M>, steps: Seq<FocusStep>) -> Seq<M>
    decreases steps.len(),
{
    if steps.len() == 0 {
        Seq::empty()
    } else {
        spec_step_out(t, steps[0]) + spec_run_out(
            spec_step_apply(t, steps[0]),
            steps.drop_first(),
        )
    }
}

/// Counting distributes over concatenation.
proof fn lemma_count_concat<M>(a: Seq<M>, b: Seq<M>, m: M)
    ensures
        count_msg(a + b, m) == count_msg(a, m) + count_msg(b, m),
    decreases a.len(),
{
    if a.len() == 0 {
        assert(a + b =~= b);
    } else {
        lemma_count_concat(a.drop_first(), b, m);
        assert((a + b)[0] == a[0]);
        assert((a + b).drop_first() =~= a.drop_first() + b);
    }
}

/// One step's emissions, counted: the focus messages minus the blur
/// messages equal the change of the announced-focus flag.
proof fn lemma_step_exactness<M>(t: TextInput<M>, step: FocusStep, fm: M, bm: M)
    requires
        t.on_focus == Option::Some(fm),
        t.on_blur == Option::Some(bm),
        fm != bm,
    ensures
        spec_step_apply(t, step).on_focus == t.on_focus,
        spec_step_apply(t, step).on_blur == t.on_blur,
        count_msg(spec_step_out(t, step), fm) - count_msg(spec_step_out(t, step), bm) == (
        if spec_step_apply(t, step).state.was_focused {
            1int
        } else {
            0int
        }) - (if t.state.was_focused {
            1int
        } else {
            0int
        }),
{
    match step {
        FocusStep::Input(ev, cur) => {
            reveal_with_fuel(count_msg, 3);
            let sync = t.spec_sync_msgs();
            let stepm = t.spec_synced().spec_step_msgs(ev, cur);
            lemma_count_concat(sync, stepm, fm);
            lemma_count_concat(sync, stepm, bm);
            assert(count_msg(seq![fm], fm) == 1) by {
                assert(seq![fm].drop_first() =~= Seq::<M>::empty());
            }
            assert(count_msg(seq![fm], bm) == 0) by {
                assert(seq![fm].drop_first() =~= Seq::<M>::empty());
            }
            assert(count_msg(seq![bm], bm) == 1) by {
                assert(seq![bm].drop_first() =~= Seq::<M>::empty());
            }
            assert(count_msg(seq![bm], fm) == 0) by {
                assert(seq![bm].drop_first() =~= Seq::<M>::empty());
            }
        }
        FocusStep::Grant => {}
        FocusStep::Revoke => {}
    }
}

/// Transition notification exactness for the text field: across any
/// sequence of input events and out-of-band focus operations, the
/// number of emitted focus messages minus the number of emitted blur
/// messages equals one exactly when the last announced state is
/// focused, and zero when it is not.
pub proof fn lemma_notification_exactness<M>(
    t: TextInput<M>,
    steps: Seq<FocusStep>,
    fm: M,
    bm: M,
)
    requires
        t.on_focus == Option::Some(fm),
        t.on_blur == Option::Some(bm),
        fm != bm,
    ensures
        count_msg(spec_run_out(t, steps), fm) - count_msg(spec_run_out(t, steps), bm) == (
        if spec_run_steps(t, steps).state.was_focused {
            1int
        } else {
            0int
        }) - (if t.state.was_focused {
            1int
        } else {
            0int
        }),
    decreases steps.len(),
{
    if steps.len() > 0 {
        lemma_step_exactness(t, steps[0], fm, bm);
        let t1 = spec_step_apply(t, steps[0]);
        lemma_notification_exactness(t1, steps.drop_first(), fm, bm);
        lemma_count_concat(
            spec_step_out(t, steps[0]),
            spec_run_out(t1, steps.drop_first()),
            fm,
        );
        lemma_count_concat(
            spec_step_out(t, steps[0]),
            spec_run_out(t1, steps.drop_first()),
            bm,
        );
    }
}

} // verus!
