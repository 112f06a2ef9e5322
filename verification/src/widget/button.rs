//! A focusable push button.
//!
//! Besides emitting a press message, the button can gain and lose
//! keyboard focus — by pointer interaction or through the tree-wide
//! focus operations — and notifies the application of each focus
//! transition exactly once, through the same outward channel in both
//! cases.

use vstd::prelude::*;

use crate::event::{is_activate_key, spec_is_activate_key, Event};
use crate::geometry::{spec_is_over, Cursor, Rect};
use crate::identity::Identity;
use crate::widget::operation::Focusable;
use crate::widget::Widget;

verus! {

/// The interaction status of a [`Button`].
#[derive(Clone, Copy, PartialEq, Eq, Structural, Debug)]
pub enum Status {
    /// The button can be pressed.
    Active,
    /// The button can be pressed and the pointer hovers it.
    Hovered,
    /// The button is being pressed.
    Pressed,
    /// The button holds keyboard focus.
    Focused {
        /// Whether the pointer hovers the button while it is focused.
        is_hovered: bool,
    },
    /// The button cannot be pressed: it has no press message.
    Disabled,
}

/// The runtime state of an interactive widget: the focus flag, the focus
/// flag as of the last emitted notification, and the interaction status.
#[derive(Clone, Copy, PartialEq, Eq, Structural, Debug)]
pub struct State {
    /// Whether the widget currently holds keyboard focus.
    pub is_focused: bool,
    /// The focus flag as of the last time a focus or blur notification
    /// was synthesized; used only to detect transitions.
    pub was_focused: bool,
    /// The interaction status.
    pub status: Status,
}

impl Default for State {
    /// The initial state: unfocused, nothing notified, active.
    fn default() -> (s: State)
        ensures
            s == (State { is_focused: false, was_focused: false, status: Status::Active }),
    {
        State { is_focused: false, was_focused: false, status: Status::Active }
    }
}

impl Focusable for State {
    open spec fn spec_focused(&self) -> bool {
        self.is_focused
    }

    open spec fn spec_enabled(&self) -> bool {
        !(self.status is Disabled)
    }

    open spec fn spec_with_focus(&self, focused: bool) -> State {
        State { is_focused: focused, ..*self }
    }

    fn is_focused(&self) -> (b: bool) {
        self.is_focused
    }

    fn focus(&mut self) {
        if !(self.status == Status::Disabled) {
            self.is_focused = true;
        }
    }

    fn unfocus(&mut self) {
        self.is_focused = false;
    }
}

/// A state with no activation handler (Disabled) never gains focus:
/// the value `focus` leaves behind still reports unfocused.
pub proof fn lemma_disabled_never_gains_focus(s: State)
    requires
        !s.spec_enabled(),
        !s.spec_focused(),
    ensures
        !(if s.spec_enabled() {
            s.spec_with_focus(true)
        } else {
            s
        }).spec_focused(),
{
}

/// The messages a widget's event pass emits for an option-valued handler:
/// one message when a handler is set, none otherwise.
pub open spec fn opt_msgs<M>(o: Option<M>) -> Seq<M> {
    match o {
        Option::Some(m) => seq![m],
        Option::None => Seq::empty(),
    }
}

/// A focusable button: content, an optional press message, optional
/// focus and blur messages, an identity, a bounding box and its runtime
/// state.
pub struct Button<M> {
    /// The content shown inside the button.
    pub content: Box<Widget<M>>,
    /// The message produced when the button is pressed; `None` disables
    /// the button.
    pub on_press: Option<M>,
    /// The message produced when the button gains focus.
    pub on_focus: Option<M>,
    /// The message produced when the button loses focus.
    pub on_blur: Option<M>,
    /// The identity addressing this button across rebuilds.
    pub id: Option<Identity>,
    /// The bounding box the layout pass assigned to the button.
    pub bounds: Rect,
    /// Whether the content is clipped on overflow.
    pub clip: bool,
    /// The runtime state.
    pub state: State,
}

impl<M> Button<M> {
    /// The button's structural invariant: it is marked `Disabled`
    /// exactly when it has no press message.
    pub open spec fn wf(&self) -> bool {
        (self.state.status is Disabled) <==> (self.on_press is None)
    }

    /// The notifications owed for a focus transition that has not been
    /// announced yet: a focus message if focus arrived, a blur message if
    /// it left, nothing if the flags agree or no handler is set.
    pub open spec fn spec_sync_msgs(&self) -> Seq<M> {
        if self.state.is_focused != self.state.was_focused {
            if self.state.is_focused {
                opt_msgs(self.on_focus)
            } else {
                opt_msgs(self.on_blur)
            }
        } else {
            Seq::empty()
        }
    }

    /// The button after its pending focus transition has been announced.
    pub open spec fn spec_synced(&self) -> Button<M> {
        Button {
            state: State { was_focused: self.state.is_focused, ..self.state },
            ..*self
        }
    }

    /// The state after one event, evaluated on an already-synced button.
    pub open spec fn spec_step_state(&self, ev: Event, cur: Cursor) -> State {
        let s = self.state;
        match ev {
            Event::PointerPressed => {
                if self.on_press is Some {
                    if spec_is_over(cur, self.bounds) {
                        State { is_focused: true, was_focused: true, status: Status::Pressed }
                    } else {
                        State { is_focused: false, was_focused: false, status: s.status }
                    }
                } else {
                    s
                }
            }
            Event::PointerReleased => {
                if self.on_press is Some && s.status is Pressed {
                    State { status: Status::Active, ..s }
                } else {
                    s
                }
            }
            Event::PointerLost => {
                if s.status is Disabled {
                    s
                } else {
                    State { status: Status::Active, ..s }
                }
            }
            Event::KeyPressed { key, shift: _ } => {
                if self.on_press is Some && s.is_focused && spec_is_activate_key(key) {
                    State { status: Status::Pressed, ..s }
                } else {
                    s
                }
            }
            Event::Other => s,
        }
    }

    /// The messages one event emits, evaluated on an already-synced
    /// button.
    pub open spec fn spec_step_msgs(&self, ev: Event, cur: Cursor) -> Seq<M> {
        let s = self.state;
        match ev {
            Event::PointerPressed => {
                if self.on_press is Some {
                    if spec_is_over(cur, self.bounds) {
                        if !s.is_focused {
                            opt_msgs(self.on_focus)
                        } else {
                            Seq::empty()
                        }
                    } else {
                        if s.is_focused {
                            opt_msgs(self.on_blur)
                        } else {
                            Seq::empty()
                        }
                    }
                } else {
                    Seq::empty()
                }
            }
            Event::PointerReleased => {
                if self.on_press is Some && s.status is Pressed && spec_is_over(cur, self.bounds) {
                    seq![self.on_press->0]
                } else {
                    Seq::empty()
                }
            }
            Event::KeyPressed { key, shift: _ } => {
                if self.on_press is Some && s.is_focused && spec_is_activate_key(key) {
                    seq![self.on_press->0]
                } else {
                    Seq::empty()
                }
            }
            _ => Seq::empty(),
        }
    }

    /// Whether one event is captured, evaluated on an already-synced
    /// button: a press inside the bounds, the release that ends a press,
    /// or an activating key while focused.
    pub open spec fn spec_step_captured(&self, ev: Event, cur: Cursor) -> bool {
        let s = self.state;
        match ev {
            Event::PointerPressed => self.on_press is Some && spec_is_over(cur, self.bounds),
            Event::PointerReleased => self.on_press is Some && s.status is Pressed,
            Event::KeyPressed { key, shift: _ } => {
                self.on_press is Some && s.is_focused && spec_is_activate_key(key)
            }
            _ => false,
        }
    }

    /// The visual status recomputed for drawing: disabled without a press
    /// message, else focused (with hover), else pressed or hovered by
    /// pointer position, else active. Pure; never changes the state.
    pub open spec fn spec_draw_status(&self, cur: Cursor) -> Status {
        if self.on_press is None {
            Status::Disabled
        } else if self.state.is_focused {
            Status::Focused { is_hovered: spec_is_over(cur, self.bounds) }
        } else if spec_is_over(cur, self.bounds) {
            if self.state.status is Pressed {
                Status::Pressed
            } else {
                Status::Hovered
            }
        } else {
            Status::Active
        }
    }
}

impl<M: Copy> Button<M> {
    /// Handles one event on this button's own state: first announces any
    /// pending focus transition, then applies the event. The content's
    /// part of the dispatch happens in the tree walk, before this runs.
    ///
    /// Emitted messages are appended to `out` in order; the result says
    /// whether the button captured the event.
    pub fn update(&mut self, event: &Event, cursor: Cursor, out: &mut Vec<M>) -> (captured: bool)
        requires
            old(self).wf(),
        ensures
            final(self).wf(),
            final(self).state == old(self).spec_synced().spec_step_state(*event, cursor),
            final(self).content == old(self).content,
            final(self).on_press == old(self).on_press,
            final(self).on_focus == old(self).on_focus,
            final(self).on_blur == old(self).on_blur,
            final(self).id == old(self).id,
            final(self).bounds == old(self).bounds,
            final(self).clip == old(self).clip,
            final(out)@ == old(out)@ + old(self).spec_sync_msgs()
                + old(self).spec_synced().spec_step_msgs(*event, cursor),
            captured == old(self).spec_synced().spec_step_captured(*event, cursor),
    {
        if self.state.is_focused != self.state.was_focused {
            if self.state.is_focused {
                if let Option::Some(m) = self.on_focus {
                    out.push(m);
                }
            } else {
                if let Option::Some(m) = self.on_blur {
                    out.push(m);
                }
            }
            self.state.was_focused = self.state.is_focused;
        }

        match *event {
            Event::PointerPressed => {
                if self.on_press.is_some() {
                    if cursor.is_over(&self.bounds) {
                        self.state.status = Status::Pressed;
                        if !self.state.is_focused {
                            if let Option::Some(m) = self.on_focus {
                                out.push(m);
                            }
                        }
                        self.state.is_focused = true;
                        self.state.was_focused = true;
                        return true;
                    } else {
                        if self.state.is_focused {
                            if let Option::Some(m) = self.on_blur {
                                out.push(m);
                            }
                        }
                        self.state.is_focused = false;
                        self.state.was_focused = false;
                    }
                }
                false
            }
            Event::PointerReleased => {
                if let Option::Some(m) = self.on_press {
                    if self.state.status == Status::Pressed {
                        self.state.status = Status::Active;
                        if cursor.is_over(&self.bounds) {
                            out.push(m);
                        }
                        return true;
                    }
                }
                false
            }
            Event::PointerLost => {
                if !(self.state.status == Status::Disabled) {
                    self.state.status = Status::Active;
                }
                false
            }
            Event::KeyPressed { key, shift: _ } => {
                if let Option::Some(m) = self.on_press {
                    if self.state.is_focused && is_activate_key(key) {
                        self.state.status = Status::Pressed;
                        out.push(m);
                        return true;
                    }
                }
                false
            }
            Event::Other => false,
        }
    }

    /// The visual status for the draw pass.
    pub fn draw_status(&self, cursor: Cursor) -> (s: Status)
        ensures
            s == self.spec_draw_status(cursor),
    {
        if self.on_press.is_none() {
            Status::Disabled
        } else if self.state.is_focused {
            Status::Focused { is_hovered: cursor.is_over(&self.bounds) }
        } else if cursor.is_over(&self.bounds) {
            if self.state.status == Status::Pressed {
                Status::Pressed
            } else {
                Status::Hovered
            }
        } else {
            Status::Active
        }
    }
}

impl<M> Button<M> {
    /// Creates a new button with the given content. The button starts
    /// without a press message, so it is disabled.
    pub fn new(content: Widget<M>) -> (b: Button<M>)
        ensures
            *b.content == content,
            b.on_press is None,
            b.on_focus is None,
            b.on_blur is None,
            b.id is None,
            b.bounds == (Rect { x: 0, y: 0, width: 0, height: 0 }),
            b.clip == false,
            b.state == (State { is_focused: false, was_focused: false, status: Status::Disabled }),
            b.wf(),
    {
        Button {
            content: Box::new(content),
            on_press: Option::None,
            on_focus: Option::None,
            on_blur: Option::None,
            id: Option::None,
            bounds: Rect { x: 0, y: 0, width: 0, height: 0 },
            clip: false,
            state: State { is_focused: false, was_focused: false, status: Status::Disabled },
        }
    }

    /// Sets the message produced when the button is pressed, enabling it.
    pub fn on_press(self, m: M) -> (b: Button<M>)
        ensures
            b.on_press == Option::Some(m),
            b.state.status == (if self.state.status is Disabled {
                Status::Active
            } else {
                self.state.status
            }),
            b.state.is_focused == self.state.is_focused,
            b.state.was_focused == self.state.was_focused,
            b.content == self.content,
            b.on_focus == self.on_focus,
            b.on_blur == self.on_blur,
            b.id == self.id,
            b.bounds == self.bounds,
            b.clip == self.clip,
            self.wf() ==> b.wf(),
    {
        let status = if self.state.status == Status::Disabled {
            Status::Active
        } else {
            self.state.status
        };
        Button {
            on_press: Option::Some(m),
            state: State { status, ..self.state },
            ..self
        }
    }

    /// Sets the press message if `Some`; with `None` the button is
    /// disabled.
    pub fn on_press_maybe(self, m: Option<M>) -> (b: Button<M>)
        ensures
            b.on_press == m,
            b.state.status == (match m {
                Option::Some(_) => if self.state.status is Disabled {
                    Status::Active
                } else {
                    self.state.status
                },
                Option::None => Status::Disabled,
            }),
            b.state.is_focused == self.state.is_focused,
            b.state.was_focused == self.state.was_focused,
            b.content == self.content,
            b.on_focus == self.on_focus,
            b.on_blur == self.on_blur,
            b.id == self.id,
            b.bounds == self.bounds,
            b.clip == self.clip,
            b.wf(),
    {
        match m {
            Option::Some(msg) => self.on_press(msg),
            Option::None => {
                Button {
                    on_press: Option::None,
                    state: State { status: Status::Disabled, ..self.state },
                    ..self
                }
            }
        }
    }

    /// Sets the message produced when the button gains focus.
    pub fn on_focus(self, m: M) -> (b: Button<M>)
        ensures
            b == (Button { on_focus: Option::Some(m), ..self }),
    {
        Button { on_focus: Option::Some(m), ..self }
    }

    /// Sets the message produced when the button loses focus.
    pub fn on_blur(self, m: M) -> (b: Button<M>)
        ensures
            b == (Button { on_blur: Option::Some(m), ..self }),
    {
        Button { on_blur: Option::Some(m), ..self }
    }

    /// Sets the identity of the button.
    pub fn id(self, id: Identity) -> (b: Button<M>)
        ensures
            b == (Button { id: Option::Some(id), ..self }),
    {
        Button { id: Option::Some(id), ..self }
    }

    /// Sets the bounding box the layout pass assigned to the button.
    pub fn bounds(self, bounds: Rect) -> (b: Button<M>)
        ensures
            b == (Button { bounds, ..self }),
    {
        Button { bounds, ..self }
    }

    /// Sets whether the content is clipped on overflow.
    pub fn clip(self, clip: bool) -> (b: Button<M>)
        ensures
            b == (Button { clip, ..self }),
    {
        Button { clip, ..self }
    }
}


/// One step in a button's focus life: an input event dispatched to it,
/// or a focus operation granting or revoking focus out of band.
pub enum FocusStep {
    /// An event reached the button (its content left it uncaptured).
    Input(Event, Cursor),
    /// A tree-wide operation called `focus` on the button's state.
    Grant,
    /// A tree-wide operation called `unfocus` on the button's state.
    Revoke,
}

/// The button after one focus step.
pub open spec fn spec_step_apply<M>(b: Button<M>, step: FocusStep) -> Button<M> {
    match step {
        FocusStep::Input(ev, cur) => (Button {
            state: b.spec_synced().spec_step_state(ev, cur),
            ..b
        }),
        FocusStep::Grant => (Button {
            state: if b.state.spec_enabled() {
                b.state.spec_with_focus(true)
            } else {
                b.state
            },
            ..b
        }),
        FocusStep::Revoke => (Button { state: b.state.spec_with_focus(false), ..b }),
    }
}

/// The messages one focus step emits: operations emit nothing
/// themselves; an input event first announces any pending transition and
/// then speaks for the event.
pub open spec fn spec_step_out<M>(b: Button<M>, step: FocusStep) -> Seq<M> {
    match step {
        FocusStep::Input(ev, cur) => b.spec_sync_msgs() + b.spec_synced().spec_step_msgs(ev, cur),
        FocusStep::Grant => Seq::empty(),
        FocusStep::Revoke => Seq::empty(),
    }
}

/// The button after a sequence of focus steps.
pub open spec fn spec_run_steps<M>(b: Button<M>, steps: Seq<FocusStep>) -> Button<M>
    decreases steps.len(),
{
    if steps.len() == 0 {
        b
    } else {
        spec_run_steps(spec_step_apply(b, steps[0]), steps.drop_first())
    }
}

/// All messages a sequence of focus steps emits, in order.
pub open spec fn spec_run_out<M>(b: Button<M>, steps: Seq<FocusStep>) -> Seq<M>
    decreases steps.len(),
{
    if steps.len() == 0 {
        Seq::empty()
    } else {
        spec_step_out(b, steps[0]) + spec_run_out(spec_step_apply(b, steps[0]), steps.drop_first())
    }
}

/// How often a message occurs in an emission sequence.
pub open spec fn count_msg<M>(s: Seq<M>, m: M) -> int
    decreases s.len(),
{
    if s.len() == 0 {
        0
    } else {
        (if s[0] == m {
            1int
        } else {
            0int
        }) + count_msg(s.drop_first(), m)
    }
}

/// Counting distributes over concatenation.
proof fn lemma_count_concat<M>(a: Seq<M>, b: Seq<M>, m: M)
    ensures
        count_msg(a + b, m) == count_msg(a, m) + count_msg(b, m),
    decreases a.len(),
{
    if a.len() == 0 {
        assert(a + b =~= b);
    } else {
        lemma_count_concat(a.drop_first(), b, m);
        assert((a + b)[0] == a[0]);
        assert((a + b).drop_first() =~= a.drop_first() + b);
    }
}

/// One step's emissions, counted: the focus messages minus the blur
/// messages equal the change of the announced-focus flag. The focus,
/// blur and press messages must be pairwise distinct for the counts to
/// see them apart.
proof fn lemma_step_exactness<M>(b: Button<M>, step: FocusStep, fm: M, bm: M)
    requires
        b.wf(),
        b.on_focus == Option::Some(fm),
        b.on_blur == Option::Some(bm),
        fm != bm,
        b.on_press is Some ==> b.on_press->0 != fm && b.on_press->0 != bm,
    ensures
        spec_step_apply(b, step).wf(),
        spec_step_apply(b, step).on_focus == b.on_focus,
        spec_step_apply(b, step).on_blur == b.on_blur,
        spec_step_apply(b, step).on_press == b.on_press,
        count_msg(spec_step_out(b, step), fm) - count_msg(spec_step_out(b, step), bm) == (
        if spec_step_apply(b, step).state.was_focused {
            1int
        } else {
            0int
        }) - (if b.state.was_focused {
            1int
        } else {
            0int
        }),
{
    match step {
        FocusStep::Input(ev, cur) => {
            reveal_with_fuel(count_msg, 3);
            let sync = b.spec_sync_msgs();
            let stepm = b.spec_synced().spec_step_msgs(ev, cur);
            lemma_count_concat(sync, stepm, fm);
            lemma_count_concat(sync, stepm, bm);
            assert(count_msg(seq![fm], fm) == 1) by {
                assert(seq![fm].drop_first() =~= Seq::<M>::empty());
            }
            assert(count_msg(seq![fm], bm) == 0) by {
                assert(seq![fm].drop_first() =~= Seq::<M>::empty());
            }
            assert(count_msg(seq![bm], bm) == 1) by {
                assert(seq![bm].drop_first() =~= Seq::<M>::empty());
            }
            assert(count_msg(seq![bm], fm) == 0) by {
                assert(seq![bm].drop_first() =~= Seq::<M>::empty());
            }
            if b.on_press is Some {
                let pm = b.on_press->0;
                assert(count_msg(seq![pm], fm) == 0) by {
                    assert(seq![pm][0] == pm);
                    assert(pm != fm);
                    assert(count_msg(Seq::<M>::empty(), fm) == 0);
                    assert(seq![pm].drop_first() =~= Seq::<M>::empty());
                }
                assert(count_msg(seq![pm], bm) == 0) by {
                    assert(seq![pm][0] == pm);
                    assert(pm != bm);
                    assert(count_msg(Seq::<M>::empty(), bm) == 0);
                    assert(seq![pm].drop_first() =~= Seq::<M>::empty());
                }
            }
        }
        FocusStep::Grant => {}
        FocusStep::Revoke => {}
    }
}

/// Transition notification exactness: across any sequence of input
/// events and out-of-band focus operations on a button whose focus,
/// blur and press messages are pairwise distinct, the number of emitted
/// focus messages minus the number of emitted blur messages equals one
/// exactly when the last announced state is focused, and zero when it
/// is not — notifications are never duplicated or dropped.
pub proof fn lemma_notification_exactness<M>(b: Button<M>, steps: Seq<FocusStep>, fm: M, bm: M)
    requires
        b.wf(),
        b.on_focus == Option::Some(fm),
        b.on_blur == Option::Some(bm),
        fm != bm,
        b.on_press is Some ==> b.on_press->0 != fm && b.on_press->0 != bm,
    ensures
        count_msg(spec_run_out(b, steps), fm) - count_msg(spec_run_out(b, steps), bm) == (
        if spec_run_steps(b, steps).state.was_focused {
            1int
        } else {
            0int
        }) - (if b.state.was_focused {
            1int
        } else {
            0int
        }),
    decreases steps.len(),
{
    if steps.len() > 0 {
        lemma_step_exactness(b, steps[0], fm, bm);
        let b1 = spec_step_apply(b, steps[0]);
        lemma_notification_exactness(b1, steps.drop_first(), fm, bm);
        lemma_count_concat(
            spec_step_out(b, steps[0]),
            spec_run_out(b1, steps.drop_first()),
            fm,
        );
        lemma_count_concat(
            spec_step_out(b, steps[0]),
            spec_run_out(b1, steps.drop_first()),
            bm,
        );
    }
}

/// The headline form of notification exactness: starting from the
/// initial, never-focused state, after a sequence of steps whose last
/// step is an input event (so the announced and actual focus flags
/// agree), the focus messages emitted minus the blur messages emitted
/// equal one if the button is currently focused and zero if it is not.
pub proof fn lemma_notification_exactness_synced<M>(
    b: Button<M>,
    steps: Seq<FocusStep>,
    fm: M,
    bm: M,
)
    requires
        b.wf(),
        b.on_focus == Option::Some(fm),
        b.on_blur == Option::Some(bm),
        fm != bm,
        b.on_press is Some ==> b.on_press->0 != fm && b.on_press->0 != bm,
        !b.state.is_focused,
        !b.state.was_focused,
        spec_run_steps(b, steps).state.was_focused == spec_run_steps(b, steps).state.is_focused,
    ensures
        count_msg(spec_run_out(b, steps), fm) - count_msg(spec_run_out(b, steps), bm) == (
        if spec_run_steps(b, steps).state.is_focused {
            1int
        } else {
            0int
        }),
{
    lemma_notification_exactness(b, steps, fm, bm);
}

} // verus!
