//! The widget tree and event dispatch.
//!
//! A [`Widget`] is either an interactive leaf (button, text input, pick
//! list), inert text, or a container (row, column, mouse area) holding
//! further widgets. Events are dispatched depth-first: containers
//! forward an event to every child first, and a widget handles the event
//! itself only when its own children left it uncaptured.

use vstd::prelude::*;

pub mod button;
pub mod mouse_area;
pub mod operation;
pub mod pick_list;
pub mod text_input;

use crate::event::Event;
use crate::geometry::{spec_is_over, Cursor, Rect};
use crate::identity::Identity;
use button::Button;
use mouse_area::MouseArea;
use pick_list::PickList;
use text_input::TextInput;

verus! {

/// A node of the widget tree.
pub enum Widget<M> {
    /// Inert text content.
    Text(String),
    /// A focusable push button.
    Button(Button<M>),
    /// A focusable text field.
    TextInput(TextInput<M>),
    /// A dropdown list of options.
    PickList(PickList),
    /// A region capturing pointer events over one child.
    MouseArea(MouseArea<M>),
    /// Children laid out horizontally.
    Row(Vec<Widget<M>>),
    /// Children laid out vertically.
    Column(Vec<Widget<M>>),
}

/// What focus traversal sees of one focusable widget: whether it may
/// accept focus, whether it is focused, its identity and its bounds.
pub struct FocusEntry {
    /// Whether the widget may accept focus.
    pub enabled: bool,
    /// Whether the widget currently holds focus.
    pub focused: bool,
    /// The widget's identity, if one was assigned.
    pub id: Option<Identity>,
    /// The widget's bounding box.
    pub bounds: Rect,
}

/// The focusable widgets of a tree in traversal order: depth-first,
/// pre-order, following declared child order; a button reports itself
/// before its content.
pub open spec fn focus_entries<M>(w: Widget<M>) -> Seq<FocusEntry>
    decreases w,
{
    match w {
        Widget::Text(_) => Seq::empty(),
        Widget::Button(b) => seq![
            FocusEntry {
                enabled: b.on_press is Some,
                focused: b.state.is_focused,
                id: b.id,
                bounds: b.bounds,
            },
        ] + focus_entries(*b.content),
        Widget::TextInput(t) => seq![
            FocusEntry { enabled: true, focused: t.state.is_focused, id: t.id, bounds: t.bounds },
        ],
        Widget::PickList(_) => Seq::empty(),
        Widget::MouseArea(a) => focus_entries(*a.child),
        Widget::Row(cs) => focus_entries_seq(cs@),
        Widget::Column(cs) => focus_entries_seq(cs@),
    }
}

/// The focusable widgets of a forest, in order.
pub open spec fn focus_entries_seq<M>(ws: Seq<Widget<M>>) -> Seq<FocusEntry>
    decreases ws,
{
    if ws.len() == 0 {
        Seq::empty()
    } else {
        focus_entries(ws[0]) + focus_entries_seq(ws.drop_first())
    }
}

/// Every button of the tree satisfies its structural invariant, and so
/// does every pick list.
pub open spec fn tree_wf<M>(w: Widget<M>) -> bool
    decreases w,
{
    match w {
        Widget::Text(_) => true,
        Widget::Button(b) => b.wf() && tree_wf(*b.content),
        Widget::TextInput(t) => t.wf(),
        Widget::PickList(p) => p.wf(),
        Widget::MouseArea(a) => tree_wf(*a.child),
        Widget::Row(cs) => tree_wf_seq(cs@),
        Widget::Column(cs) => tree_wf_seq(cs@),
    }
}

/// Every tree of a forest is well formed.
pub open spec fn tree_wf_seq<M>(ws: Seq<Widget<M>>) -> bool
    decreases ws,
{
    if ws.len() == 0 {
        true
    } else {
        tree_wf(ws[0]) && tree_wf_seq(ws.drop_first())
    }
}

/// Whether one event-dispatch pass over a tree ends captured.
///
/// Children run before their parent: a button or mouse area first
/// dispatches into its content, and handles the event itself only when
/// the content left it uncaptured. Containers forward the event to every
/// child in declared order, whether or not an earlier child captured it,
/// so that each widget can still observe presses outside its own bounds.
pub open spec fn spec_dispatch_captured<M>(w: Widget<M>, ev: Event, cur: Cursor) -> bool
    decreases w,
{
    match w {
        Widget::Text(_) => false,
        Widget::PickList(_) => false,
        Widget::TextInput(t) => t.spec_synced().spec_step_captured(ev, cur),
        Widget::Button(b) => spec_dispatch_captured(*b.content, ev, cur)
            || b.spec_synced().spec_step_captured(ev, cur),
        Widget::MouseArea(a) => spec_dispatch_captured(*a.child, ev, cur)
            || a.spec_step_captured(ev, cur),
        Widget::Row(cs) => spec_dispatch_captured_seq(cs@, ev, cur),
        Widget::Column(cs) => spec_dispatch_captured_seq(cs@, ev, cur),
    }
}

/// Whether some tree of a forest captures the event.
pub open spec fn spec_dispatch_captured_seq<M>(ws: Seq<Widget<M>>, ev: Event, cur: Cursor) -> bool
    decreases ws,
{
    if ws.len() == 0 {
        false
    } else {
        spec_dispatch_captured(ws[0], ev, cur) || spec_dispatch_captured_seq(
            ws.drop_first(),
            ev,
            cur,
        )
    }
}

/// The messages one event-dispatch pass over a tree publishes, in order:
/// a widget's children speak before the widget itself, and a parent
/// whose child captured the event adds nothing of its own.
pub open spec fn spec_dispatch_msgs<M>(w: Widget<M>, ev: Event, cur: Cursor) -> Seq<M>
    decreases w,
{
    match w {
        Widget::Text(_) => Seq::empty(),
        Widget::PickList(_) => Seq::empty(),
        Widget::TextInput(t) => t.spec_sync_msgs() + t.spec_synced().spec_step_msgs(ev, cur),
        Widget::Button(b) => {
            let cm = spec_dispatch_msgs(*b.content, ev, cur);
            if spec_dispatch_captured(*b.content, ev, cur) {
                cm
            } else {
                cm + b.spec_sync_msgs() + b.spec_synced().spec_step_msgs(ev, cur)
            }
        }
        Widget::MouseArea(a) => {
            let cm = spec_dispatch_msgs(*a.child, ev, cur);
            if spec_dispatch_captured(*a.child, ev, cur) {
                cm
            } else {
                cm + a.spec_step_msgs(ev, cur)
            }
        }
        Widget::Row(cs) => spec_dispatch_msgs_seq(cs@, ev, cur),
        Widget::Column(cs) => spec_dispatch_msgs_seq(cs@, ev, cur),
    }
}

/// The messages a forest publishes, in declared child order.
pub open spec fn spec_dispatch_msgs_seq<M>(ws: Seq<Widget<M>>, ev: Event, cur: Cursor) -> Seq<M>
    decreases ws,
{
    if ws.len() == 0 {
        Seq::empty()
    } else {
        spec_dispatch_msgs(ws[0], ev, cur) + spec_dispatch_msgs_seq(ws.drop_first(), ev, cur)
    }
}

/// Relates a tree to the tree one event-dispatch pass leaves behind.
/// The relation is deterministic: it pins every widget's state after the
/// pass. A button whose content captured the event keeps its state
/// untouched; otherwise it syncs pending focus notifications and applies
/// the event.
pub open spec fn spec_dispatched<M>(w: Widget<M>, ev: Event, cur: Cursor, w2: Widget<M>) -> bool
    decreases w,
{
    match w {
        Widget::Text(_) => w2 == w,
        Widget::PickList(_) => w2 == w,
        Widget::TextInput(t) => w2 == Widget::TextInput(
            TextInput { state: t.spec_synced().spec_step_state(ev, cur), ..t },
        ),
        Widget::Button(b) => {
            &&& w2 is Button
            &&& spec_dispatched(*b.content, ev, cur, *w2->Button_0.content)
            &&& w2->Button_0 == (Button {
                content: w2->Button_0.content,
                state: if spec_dispatch_captured(*b.content, ev, cur) {
                    b.state
                } else {
                    b.spec_synced().spec_step_state(ev, cur)
                },
                ..b
            })
        }
        Widget::MouseArea(a) => {
            &&& w2 is MouseArea
            &&& spec_dispatched(*a.child, ev, cur, *w2->MouseArea_0.child)
            &&& w2->MouseArea_0 == (MouseArea { child: w2->MouseArea_0.child, ..a })
        }
        Widget::Row(cs) => {
            &&& w2 is Row
            &&& w2->Row_0@.len() == cs@.len()
            &&& forall|i: int|
                0 <= i < cs@.len() ==> spec_dispatched(cs@[i], ev, cur, #[trigger] w2->Row_0@[i])
        }
        Widget::Column(cs) => {
            &&& w2 is Column
            &&& w2->Column_0@.len() == cs@.len()
            &&& forall|i: int|
                0 <= i < cs@.len() ==> spec_dispatched(cs@[i], ev, cur, #[trigger] w2->Column_0@[i])
        }
    }
}

/// Extending a forest by one tree appends that tree's focus entries.
pub proof fn lemma_entries_seq_snoc<M>(ws: Seq<Widget<M>>, i: int)
    requires
        0 <= i < ws.len(),
    ensures
        focus_entries_seq(ws.subrange(0, i + 1)) == focus_entries_seq(ws.subrange(0, i))
            + focus_entries(ws[i]),
    decreases i,
{
    if i == 0 {
        assert(ws.subrange(0, 1).drop_first() =~= ws.subrange(0, 0));
        assert(ws.subrange(0, 1)[0] == ws[0]);
        assert(focus_entries_seq(ws.subrange(0, 0)) =~= Seq::<FocusEntry>::empty());
        assert(focus_entries_seq(ws.subrange(0, 1)) =~= focus_entries(ws[0]));
        assert(focus_entries_seq(ws.subrange(0, 0)) + focus_entries(ws[0]) =~= focus_entries(
            ws[0],
        ));
    } else {
        lemma_entries_seq_snoc(ws.drop_first(), i - 1);
        assert(ws.subrange(0, i + 1).drop_first() =~= ws.drop_first().subrange(0, i));
        assert(ws.subrange(0, i).drop_first() =~= ws.drop_first().subrange(0, i - 1));
        assert(ws.drop_first()[i - 1] == ws[i]);
        assert(focus_entries(ws[0]) + (focus_entries_seq(ws.drop_first().subrange(0, i - 1))
            + focus_entries(ws[i])) =~= (focus_entries(ws[0]) + focus_entries_seq(
            ws.drop_first().subrange(0, i - 1),
        )) + focus_entries(ws[i]));
    }
}

/// Extending a forest by one tree appends that tree's messages.
proof fn lemma_msgs_seq_snoc<M>(ws: Seq<Widget<M>>, i: int, ev: Event, cur: Cursor)
    requires
        0 <= i < ws.len(),
    ensures
        spec_dispatch_msgs_seq(ws.subrange(0, i + 1), ev, cur) == spec_dispatch_msgs_seq(
            ws.subrange(0, i),
            ev,
            cur,
        ) + spec_dispatch_msgs(ws[i], ev, cur),
    decreases i,
{
    if i == 0 {
        assert(ws.subrange(0, 1).drop_first() =~= ws.subrange(0, 0));
        assert(spec_dispatch_msgs_seq(ws.subrange(0, 0), ev, cur) =~= Seq::<M>::empty());
        assert(spec_dispatch_msgs_seq(ws.subrange(0, 1), ev, cur) =~= spec_dispatch_msgs(
            ws[0],
            ev,
            cur,
        ));
        assert(spec_dispatch_msgs_seq(ws.subrange(0, 0), ev, cur) + spec_dispatch_msgs(
            ws[0],
            ev,
            cur,
        ) =~= spec_dispatch_msgs(ws[0], ev, cur));
    } else {
        lemma_msgs_seq_snoc(ws.drop_first(), i - 1, ev, cur);
        assert(ws.subrange(0, i + 1).drop_first() =~= ws.drop_first().subrange(0, i));
        assert(ws.subrange(0, i).drop_first() =~= ws.drop_first().subrange(0, i - 1));
        assert(ws.drop_first()[i - 1] == ws[i]);
        assert(spec_dispatch_msgs(ws[0], ev, cur) + (spec_dispatch_msgs_seq(
            ws.drop_first().subrange(0, i - 1),
            ev,
            cur,
        ) + spec_dispatch_msgs(ws[i], ev, cur)) =~= (spec_dispatch_msgs(ws[0], ev, cur)
            + spec_dispatch_msgs_seq(ws.drop_first().subrange(0, i - 1), ev, cur))
            + spec_dispatch_msgs(ws[i], ev, cur));
    }
}

/// Extending a forest by one tree ors in that tree's capture flag.
proof fn lemma_captured_seq_snoc<M>(ws: Seq<Widget<M>>, i: int, ev: Event, cur: Cursor)
    requires
        0 <= i < ws.len(),
    ensures
        spec_dispatch_captured_seq(ws.subrange(0, i + 1), ev, cur) == (spec_dispatch_captured_seq(
            ws.subrange(0, i),
            ev,
            cur,
        ) || spec_dispatch_captured(ws[i], ev, cur)),
    decreases i,
{
    if i == 0 {
        assert(ws.subrange(0, 1).drop_first() =~= ws.subrange(0, 0));
        assert(ws.subrange(0, 1)[0] == ws[0]);
    } else {
        lemma_captured_seq_snoc(ws.drop_first(), i - 1, ev, cur);
        assert(ws.subrange(0, i + 1).drop_first() =~= ws.drop_first().subrange(0, i));
        assert(ws.subrange(0, i).drop_first() =~= ws.drop_first().subrange(0, i - 1));
        assert(ws.drop_first()[i - 1] == ws[i]);
    }
}

/// A forest is well formed exactly when every tree of it is.
pub proof fn lemma_tree_wf_seq_iff_all<M>(ws: Seq<Widget<M>>)
    ensures
        tree_wf_seq(ws) <==> (forall|i: int| 0 <= i < ws.len() ==> tree_wf(#[trigger] ws[i])),
    decreases ws,
{
    if ws.len() > 0 {
        lemma_tree_wf_seq_iff_all(ws.drop_first());
        assert(forall|i: int|
            0 <= i < ws.drop_first().len() ==> ws.drop_first()[i] == ws[i + 1]);
        if tree_wf(ws[0]) && tree_wf_seq(ws.drop_first()) {
            assert forall|i: int| 0 <= i < ws.len() implies tree_wf(#[trigger] ws[i]) by {
                if i > 0 {
                    assert(ws[i] == ws.drop_first()[i - 1]);
                }
            }
        }
        if forall|i: int| 0 <= i < ws.len() ==> tree_wf(#[trigger] ws[i]) {
            assert(tree_wf(ws[0]));
        }
    }
}

/// One event-dispatch pass over a tree: children before parents, every
/// sibling sees the event, and the messages of the whole pass are
/// appended to `out` in traversal order.
#[verifier::loop_isolation(false)]
pub fn dispatch<M: Copy>(w: Widget<M>, event: &Event, cursor: Cursor, out: &mut Vec<M>) -> (r: (
    Widget<M>,
    bool,
))
    requires
        tree_wf(w),
    ensures
        spec_dispatched(w, *event, cursor, r.0),
        tree_wf(r.0),
        final(out)@ == old(out)@ + spec_dispatch_msgs(w, *event, cursor),
        r.1 == spec_dispatch_captured(w, *event, cursor),
    decreases w,
{
    match w {
        Widget::Text(s) => (Widget::Text(s), false),
        Widget::PickList(p) => (Widget::PickList(p), false),
        Widget::TextInput(t) => {
            let mut t2 = t;
            let cap = t2.update(event, cursor, out);
            (Widget::TextInput(t2), cap)
        }
        Widget::Button(b) => {
            let Button { content, on_press, on_focus, on_blur, id, bounds, clip, state } = b;
            let (c2, ccap) = dispatch(*content, event, cursor, out);
            let mut b2 = Button {
                content: Box::new(c2),
                on_press,
                on_focus,
                on_blur,
                id,
                bounds,
                clip,
                state,
            };
            if ccap {
                (Widget::Button(b2), true)
            } else {
                let cap = b2.update(event, cursor, out);
                (Widget::Button(b2), cap)
            }
        }
        Widget::MouseArea(a) => {
            let MouseArea { child, bounds, on_press, on_release } = a;
            let (c2, ccap) = dispatch(*child, event, cursor, out);
            let a2 = MouseArea { child: Box::new(c2), bounds, on_press, on_release };
            if ccap {
                (Widget::MouseArea(a2), true)
            } else {
                let cap = a2.update(event, cursor, out);
                (Widget::MouseArea(a2), cap)
            }
        }
        Widget::Row(cs) => {
            let (res, captured) = dispatch_children(cs, event, cursor, out);
            (Widget::Row(res), captured)
        }
        Widget::Column(cs) => {
            let (res, captured) = dispatch_children(cs, event, cursor, out);
            (Widget::Column(res), captured)
        }
    }
}

/// Dispatches one event to every tree of a forest in declared order.
#[verifier::loop_isolation(false)]
fn dispatch_children<M: Copy>(
    cs: Vec<Widget<M>>,
    event: &Event,
    cursor: Cursor,
    out: &mut Vec<M>,
) -> (r: (Vec<Widget<M>>, bool))
    requires
        tree_wf_seq(cs@),
    ensures
        r.0@.len() == cs@.len(),
        forall|i: int|
            0 <= i < cs@.len() ==> spec_dispatched(cs@[i], *event, cursor, #[trigger] r.0@[i]),
        tree_wf_seq(r.0@),
        final(out)@ == old(out)@ + spec_dispatch_msgs_seq(cs@, *event, cursor),
        r.1 == spec_dispatch_captured_seq(cs@, *event, cursor),
    decreases cs,
{
    let mut cs = cs;
    let ghost orig = cs@;
    let ghost out0 = out@;
    let mut res: Vec<Widget<M>> = Vec::new();
    let mut captured = false;
    proof {
        assert(spec_dispatch_msgs_seq(orig.subrange(0, 0), *event, cursor) =~= Seq::<M>::empty());
        assert(orig.subrange(0, 0) =~= Seq::<Widget<M>>::empty());
    }
    while cs.len() > 0
        invariant
            cs@.len() <= orig.len(),
            cs@ =~= orig.subrange(orig.len() - cs@.len(), orig.len() as int),
            tree_wf_seq(cs@),
            res@.len() == orig.len() - cs@.len(),
            forall|i: int|
                0 <= i < res@.len() ==> spec_dispatched(
                    orig[i],
                    *event,
                    cursor,
                    #[trigger] res@[i],
                ),
            forall|i: int| 0 <= i < res@.len() ==> tree_wf(#[trigger] res@[i]),
            out@ == out0 + spec_dispatch_msgs_seq(
                orig.subrange(0, res@.len() as int),
                *event,
                cursor,
            ),
            captured == spec_dispatch_captured_seq(
                orig.subrange(0, res@.len() as int),
                *event,
                cursor,
            ),
        decreases cs@.len(),
    {
        let ghost k = orig.len() - cs@.len();
        let ghost cs_before = cs@;
        let c = cs.remove(0);
        proof {
            assert(c == orig[k]);
            assert(tree_wf(c) && tree_wf_seq(cs@)) by {
                assert(cs_before[0] == c);
                assert(cs@ =~= cs_before.drop_first());
            }
        }
        let (c2, cap) = dispatch(c, event, cursor, out);
        res.push(c2);
        captured = captured || cap;
        proof {
            lemma_msgs_seq_snoc(orig, k, *event, cursor);
            lemma_captured_seq_snoc(orig, k, *event, cursor);
            assert(out@ =~= out0 + spec_dispatch_msgs_seq(
                orig.subrange(0, res@.len() as int),
                *event,
                cursor,
            ));
        }
    }
    proof {
        assert(orig.subrange(0, orig.len() as int) =~= orig);
        lemma_tree_wf_seq_iff_all(res@);
    }
    (res, captured)
}


/// A tree with no interactive widgets at all: inert content never
/// captures an event and is invisible to focus traversal.
pub open spec fn inert<M>(w: Widget<M>) -> bool
    decreases w,
{
    match w {
        Widget::Text(_) => true,
        Widget::PickList(_) => true,
        Widget::Button(_) => false,
        Widget::TextInput(_) => false,
        Widget::MouseArea(_) => false,
        Widget::Row(cs) => inert_seq(cs@),
        Widget::Column(cs) => inert_seq(cs@),
    }
}

/// Every tree of a forest is inert.
pub open spec fn inert_seq<M>(ws: Seq<Widget<M>>) -> bool
    decreases ws,
{
    if ws.len() == 0 {
        true
    } else {
        inert(ws[0]) && inert_seq(ws.drop_first())
    }
}

/// Every button's content in the tree is inert, so no button ever has
/// the event captured away by its own content.
pub open spec fn contents_passive<M>(w: Widget<M>) -> bool
    decreases w,
{
    match w {
        Widget::Text(_) => true,
        Widget::PickList(_) => true,
        Widget::TextInput(_) => true,
        Widget::Button(b) => inert(*b.content),
        Widget::MouseArea(a) => contents_passive(*a.child),
        Widget::Row(cs) => contents_passive_seq(cs@),
        Widget::Column(cs) => contents_passive_seq(cs@),
    }
}

/// Every tree of a forest has passive button contents.
pub open spec fn contents_passive_seq<M>(ws: Seq<Widget<M>>) -> bool
    decreases ws,
{
    if ws.len() == 0 {
        true
    } else {
        contents_passive(ws[0]) && contents_passive_seq(ws.drop_first())
    }
}

/// Inert content has no focus entries and never captures an event.
pub proof fn lemma_inert_tree<M>(w: Widget<M>, ev: Event, cur: Cursor)
    requires
        inert(w),
    ensures
        focus_entries(w) =~= Seq::<FocusEntry>::empty(),
        !spec_dispatch_captured(w, ev, cur),
    decreases w,
{
    match w {
        Widget::Row(cs) => lemma_inert_seq(cs@, ev, cur),
        Widget::Column(cs) => lemma_inert_seq(cs@, ev, cur),
        _ => {}
    }
}

/// The forest version of [`lemma_inert_tree`].
proof fn lemma_inert_seq<M>(ws: Seq<Widget<M>>, ev: Event, cur: Cursor)
    requires
        inert_seq(ws),
    ensures
        focus_entries_seq(ws) =~= Seq::<FocusEntry>::empty(),
        !spec_dispatch_captured_seq(ws, ev, cur),
    decreases ws,
{
    if ws.len() > 0 {
        lemma_inert_tree(ws[0], ev, cur);
        lemma_inert_seq(ws.drop_first(), ev, cur);
    }
}

/// Dispatching an event through inert content leaves it with no focus
/// entries: inert content stays invisible to focus traversal.
pub proof fn lemma_inert_dispatched<M>(w: Widget<M>, ev: Event, cur: Cursor, w2: Widget<M>)
    requires
        inert(w),
        spec_dispatched(w, ev, cur, w2),
    ensures
        focus_entries(w2) =~= Seq::<FocusEntry>::empty(),
    decreases w,
{
    match w {
        Widget::Row(cs) => {
            let cs2 = w2->Row_0@;
            assert forall|i: int| 0 <= i < cs2.len() implies focus_entries(
                #[trigger] cs2[i],
            ) =~= Seq::<FocusEntry>::empty() by {
                lemma_inert_seq_index(cs@, i);
                lemma_inert_dispatched(cs@[i], ev, cur, cs2[i]);
            }
            lemma_entries_seq_empty(cs2);
        }
        Widget::Column(cs) => {
            let cs2 = w2->Column_0@;
            assert forall|i: int| 0 <= i < cs2.len() implies focus_entries(
                #[trigger] cs2[i],
            ) =~= Seq::<FocusEntry>::empty() by {
                lemma_inert_seq_index(cs@, i);
                lemma_inert_dispatched(cs@[i], ev, cur, cs2[i]);
            }
            lemma_entries_seq_empty(cs2);
        }
        _ => {}
    }
}

/// Every tree of an inert forest is inert.
proof fn lemma_inert_seq_index<M>(ws: Seq<Widget<M>>, i: int)
    requires
        inert_seq(ws),
        0 <= i < ws.len(),
    ensures
        inert(ws[i]),
    decreases i,
{
    if i > 0 {
        lemma_inert_seq_index(ws.drop_first(), i - 1);
    }
}

/// A forest whose trees all have empty traversals has an empty
/// traversal.
proof fn lemma_entries_seq_empty<M>(ws: Seq<Widget<M>>)
    requires
        forall|i: int|
            0 <= i < ws.len() ==> focus_entries(#[trigger] ws[i]) =~= Seq::<FocusEntry>::empty(),
    ensures
        focus_entries_seq(ws) =~= Seq::<FocusEntry>::empty(),
    decreases ws,
{
    if ws.len() > 0 {
        lemma_entries_seq_empty(ws.drop_first());
    }
}

/// Capture precedence: when a button's content captures the event, the
/// button itself does no processing — its state and every other field
/// are exactly what they were, and no message of its own is emitted.
pub proof fn lemma_capture_precedence<M>(b: Button<M>, ev: Event, cur: Cursor, w2: Widget<M>)
    requires
        spec_dispatched(Widget::Button(b), ev, cur, w2),
        spec_dispatch_captured(*b.content, ev, cur),
    ensures
        w2->Button_0.state == b.state,
        w2->Button_0.on_press == b.on_press,
        w2->Button_0.on_focus == b.on_focus,
        w2->Button_0.on_blur == b.on_blur,
        w2->Button_0.id == b.id,
        w2->Button_0.bounds == b.bounds,
        w2->Button_0.clip == b.clip,
        spec_dispatch_msgs(Widget::Button(b), ev, cur) == spec_dispatch_msgs(*b.content, ev, cur),
{
}

/// Capture precedence for a mouse area: when its child captures the
/// event, the area adds no message of its own.
pub proof fn lemma_capture_precedence_area<M>(a: MouseArea<M>, ev: Event, cur: Cursor)
    requires
        spec_dispatch_captured(*a.child, ev, cur),
    ensures
        spec_dispatch_msgs(Widget::MouseArea(a), ev, cur) == spec_dispatch_msgs(
            *a.child,
            ev,
            cur,
        ),
{
}

/// The focus entries after a pointer-press pass: an enabled widget is
/// focused exactly when the press landed inside its bounds, and a
/// disabled widget keeps its old flag; nothing else about an entry
/// changes.
pub open spec fn spec_entries_after_press(es: Seq<FocusEntry>, cur: Cursor) -> Seq<FocusEntry> {
    Seq::new(
        es.len(),
        |j: int|
            FocusEntry {
                enabled: es[j].enabled,
                focused: if es[j].enabled {
                    spec_is_over(cur, es[j].bounds)
                } else {
                    es[j].focused
                },
                id: es[j].id,
                bounds: es[j].bounds,
            },
    )
}

/// Any event other than a pointer press leaves the focus entries of the
/// whole tree exactly as they were: only presses move focus during
/// dispatch.
pub proof fn lemma_dispatch_non_press_preserves_entries<M>(
    w: Widget<M>,
    ev: Event,
    cur: Cursor,
    w2: Widget<M>,
)
    requires
        spec_dispatched(w, ev, cur, w2),
        !(ev is PointerPressed),
    ensures
        focus_entries(w2) == focus_entries(w),
    decreases w,
{
    match w {
        Widget::Button(b) => {
            lemma_dispatch_non_press_preserves_entries(*b.content, ev, cur, *w2->Button_0.content);
            assert(focus_entries(w2) =~= focus_entries(w));
        }
        Widget::MouseArea(a) => {
            lemma_dispatch_non_press_preserves_entries(*a.child, ev, cur, *w2->MouseArea_0.child);
            assert(focus_entries(w2) =~= focus_entries(w));
        }
        Widget::Row(cs) => {
            lemma_dispatch_non_press_preserves_entries_seq(cs@, ev, cur, w2->Row_0@);
        }
        Widget::Column(cs) => {
            lemma_dispatch_non_press_preserves_entries_seq(cs@, ev, cur, w2->Column_0@);
        }
        _ => {
            assert(focus_entries(w2) =~= focus_entries(w));
        }
    }
}

/// The forest version of [`lemma_dispatch_non_press_preserves_entries`].
proof fn lemma_dispatch_non_press_preserves_entries_seq<M>(
    ws: Seq<Widget<M>>,
    ev: Event,
    cur: Cursor,
    ws2: Seq<Widget<M>>,
)
    requires
        ws2.len() == ws.len(),
        forall|i: int| 0 <= i < ws.len() ==> spec_dispatched(ws[i], ev, cur, #[trigger] ws2[i]),
        !(ev is PointerPressed),
    ensures
        focus_entries_seq(ws2) == focus_entries_seq(ws),
    decreases ws,
{
    if ws.len() > 0 {
        lemma_dispatch_non_press_preserves_entries(ws[0], ev, cur, ws2[0]);
        assert(forall|i: int|
            0 <= i < ws.drop_first().len() ==> ws.drop_first()[i] == ws[i + 1]
                && ws2.drop_first()[i] == ws2[i + 1]);
        lemma_dispatch_non_press_preserves_entries_seq(
            ws.drop_first(),
            ev,
            cur,
            ws2.drop_first(),
        );
        assert(focus_entries_seq(ws2) =~= focus_entries_seq(ws));
    } else {
        assert(focus_entries_seq(ws2) =~= focus_entries_seq(ws));
    }
}

/// A pointer-press pass over a tree whose buttons have passive contents
/// rewrites the focus entries as [`spec_entries_after_press`] says:
/// every enabled widget under the pointer gains focus, every enabled
/// widget elsewhere loses it, and disabled widgets keep their flags.
pub proof fn lemma_dispatch_press_entries<M>(w: Widget<M>, cur: Cursor, w2: Widget<M>)
    requires
        spec_dispatched(w, Event::PointerPressed, cur, w2),
        contents_passive(w),
    ensures
        focus_entries(w2) == spec_entries_after_press(focus_entries(w), cur),
    decreases w,
{
    let ev = Event::PointerPressed;
    match w {
        Widget::Button(b) => {
            lemma_inert_tree(*b.content, ev, cur);
            lemma_inert_dispatched(*b.content, ev, cur, *w2->Button_0.content);
            assert(focus_entries(w2) =~= spec_entries_after_press(focus_entries(w), cur));
        }
        Widget::MouseArea(a) => {
            lemma_dispatch_press_entries(*a.child, cur, *w2->MouseArea_0.child);
            assert(focus_entries(w2) =~= spec_entries_after_press(focus_entries(w), cur));
        }
        Widget::Row(cs) => {
            lemma_dispatch_press_entries_seq(cs@, cur, w2->Row_0@);
        }
        Widget::Column(cs) => {
            lemma_dispatch_press_entries_seq(cs@, cur, w2->Column_0@);
        }
        _ => {
            assert(focus_entries(w2) =~= spec_entries_after_press(focus_entries(w), cur));
        }
    }
}

/// The forest version of [`lemma_dispatch_press_entries`].
proof fn lemma_dispatch_press_entries_seq<M>(ws: Seq<Widget<M>>, cur: Cursor, ws2: Seq<Widget<M>>)
    requires
        ws2.len() == ws.len(),
        forall|i: int|
            0 <= i < ws.len() ==> spec_dispatched(
                ws[i],
                Event::PointerPressed,
                cur,
                #[trigger] ws2[i],
            ),
        contents_passive_seq(ws),
    ensures
        focus_entries_seq(ws2) == spec_entries_after_press(focus_entries_seq(ws), cur),
    decreases ws,
{
    if ws.len() > 0 {
        lemma_dispatch_press_entries(ws[0], cur, ws2[0]);
        assert(forall|i: int|
            0 <= i < ws.drop_first().len() ==> ws.drop_first()[i] == ws[i + 1]
                && ws2.drop_first()[i] == ws2[i + 1]);
        lemma_dispatch_press_entries_seq(ws.drop_first(), cur, ws2.drop_first());
        let a = focus_entries(ws[0]);
        let brest = focus_entries_seq(ws.drop_first());
        assert(focus_entries_seq(ws) == a + brest);
        assert(focus_entries_seq(ws2) == focus_entries(ws2[0]) + focus_entries_seq(
            ws2.drop_first(),
        ));
        assert forall|j: int| 0 <= j < a.len() + brest.len() implies (focus_entries(ws2[0])
            + focus_entries_seq(ws2.drop_first()))[j] == spec_entries_after_press(
            a + brest,
            cur,
        )[j] by {
            if j < a.len() {
                assert((a + brest)[j] == a[j]);
            } else {
                assert((a + brest)[j] == brest[j - a.len()]);
            }
        }
        assert(focus_entries_seq(ws2) =~= spec_entries_after_press(focus_entries_seq(ws), cur));
    } else {
        assert(focus_entries_seq(ws2) =~= spec_entries_after_press(focus_entries_seq(ws), cur));
    }
}


/// The structural invariant survives one event on a button's own state.
proof fn lemma_step_state_preserves_wf<M>(b: Button<M>, ev: Event, cur: Cursor)
    requires
        b.wf(),
    ensures
        (Button { state: b.spec_synced().spec_step_state(ev, cur), ..b }).wf(),
{
}

/// Event dispatch preserves the tree's structural invariant.
pub proof fn lemma_dispatched_preserves_wf<M>(w: Widget<M>, ev: Event, cur: Cursor, w2: Widget<M>)
    requires
        tree_wf(w),
        spec_dispatched(w, ev, cur, w2),
    ensures
        tree_wf(w2),
    decreases w,
{
    match w {
        Widget::Button(b) => {
            lemma_dispatched_preserves_wf(*b.content, ev, cur, *w2->Button_0.content);
            lemma_step_state_preserves_wf(b, ev, cur);
        }
        Widget::MouseArea(a) => {
            lemma_dispatched_preserves_wf(*a.child, ev, cur, *w2->MouseArea_0.child);
        }
        Widget::Row(cs) => {
            lemma_dispatched_preserves_wf_seq(cs@, ev, cur, w2->Row_0@);
        }
        Widget::Column(cs) => {
            lemma_dispatched_preserves_wf_seq(cs@, ev, cur, w2->Column_0@);
        }
        _ => {}
    }
}

/// The forest version of [`lemma_dispatched_preserves_wf`].
proof fn lemma_dispatched_preserves_wf_seq<M>(
    ws: Seq<Widget<M>>,
    ev: Event,
    cur: Cursor,
    ws2: Seq<Widget<M>>,
)
    requires
        tree_wf_seq(ws),
        ws2.len() == ws.len(),
        forall|i: int| 0 <= i < ws.len() ==> spec_dispatched(ws[i], ev, cur, #[trigger] ws2[i]),
    ensures
        tree_wf_seq(ws2),
    decreases ws,
{
    if ws.len() > 0 {
        lemma_dispatched_preserves_wf(ws[0], ev, cur, ws2[0]);
        assert(forall|i: int|
            0 <= i < ws.drop_first().len() ==> ws.drop_first()[i] == ws[i + 1]
                && ws2.drop_first()[i] == ws2[i + 1]);
        lemma_dispatched_preserves_wf_seq(ws.drop_first(), ev, cur, ws2.drop_first());
    }
}

/// Event dispatch preserves inertness: content without interactive
/// widgets stays without them.
pub proof fn lemma_dispatched_preserves_inert<M>(
    w: Widget<M>,
    ev: Event,
    cur: Cursor,
    w2: Widget<M>,
)
    requires
        inert(w),
        spec_dispatched(w, ev, cur, w2),
    ensures
        inert(w2),
    decreases w,
{
    match w {
        Widget::Row(cs) => {
            lemma_dispatched_preserves_inert_seq(cs@, ev, cur, w2->Row_0@);
        }
        Widget::Column(cs) => {
            lemma_dispatched_preserves_inert_seq(cs@, ev, cur, w2->Column_0@);
        }
        _ => {}
    }
}

/// The forest version of [`lemma_dispatched_preserves_inert`].
proof fn lemma_dispatched_preserves_inert_seq<M>(
    ws: Seq<Widget<M>>,
    ev: Event,
    cur: Cursor,
    ws2: Seq<Widget<M>>,
)
    requires
        inert_seq(ws),
        ws2.len() == ws.len(),
        forall|i: int| 0 <= i < ws.len() ==> spec_dispatched(ws[i], ev, cur, #[trigger] ws2[i]),
    ensures
        inert_seq(ws2),
    decreases ws,
{
    if ws.len() > 0 {
        lemma_dispatched_preserves_inert(ws[0], ev, cur, ws2[0]);
        assert(forall|i: int|
            0 <= i < ws.drop_first().len() ==> ws.drop_first()[i] == ws[i + 1]
                && ws2.drop_first()[i] == ws2[i + 1]);
        lemma_dispatched_preserves_inert_seq(ws.drop_first(), ev, cur, ws2.drop_first());
    }
}

/// Event dispatch preserves passive button contents.
pub proof fn lemma_dispatched_preserves_passive<M>(
    w: Widget<M>,
    ev: Event,
    cur: Cursor,
    w2: Widget<M>,
)
    requires
        contents_passive(w),
        spec_dispatched(w, ev, cur, w2),
    ensures
        contents_passive(w2),
    decreases w,
{
    match w {
        Widget::Button(b) => {
            lemma_dispatched_preserves_inert(*b.content, ev, cur, *w2->Button_0.content);
        }
        Widget::MouseArea(a) => {
            lemma_dispatched_preserves_passive(*a.child, ev, cur, *w2->MouseArea_0.child);
        }
        Widget::Row(cs) => {
            lemma_dispatched_preserves_passive_seq(cs@, ev, cur, w2->Row_0@);
        }
        Widget::Column(cs) => {
            lemma_dispatched_preserves_passive_seq(cs@, ev, cur, w2->Column_0@);
        }
        _ => {}
    }
}

/// The forest version of [`lemma_dispatched_preserves_passive`].
proof fn lemma_dispatched_preserves_passive_seq<M>(
    ws: Seq<Widget<M>>,
    ev: Event,
    cur: Cursor,
    ws2: Seq<Widget<M>>,
)
    requires
        contents_passive_seq(ws),
        ws2.len() == ws.len(),
        forall|i: int| 0 <= i < ws.len() ==> spec_dispatched(ws[i], ev, cur, #[trigger] ws2[i]),
    ensures
        contents_passive_seq(ws2),
    decreases ws,
{
    if ws.len() > 0 {
        lemma_dispatched_preserves_passive(ws[0], ev, cur, ws2[0]);
        assert(forall|i: int|
            0 <= i < ws.drop_first().len() ==> ws.drop_first()[i] == ws[i + 1]
                && ws2.drop_first()[i] == ws2[i + 1]);
        lemma_dispatched_preserves_passive_seq(ws.drop_first(), ev, cur, ws2.drop_first());
    }
}

} // verus!
