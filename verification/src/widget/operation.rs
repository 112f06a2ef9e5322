//! Tree-wide focus operations and the capability they act through.
//!
//! An [`Operation`] is a single query or mutation run against a whole
//! widget tree in one synchronous walk, without the caller knowing the
//! tree's concrete shape. The walk manipulates focus only through the
//! [`Focusable`] capability, so any stateful widget can take part by
//! implementing it; widgets that do not are invisible to the operations.

use vstd::prelude::*;

use crate::identity::Identity;
use crate::widget::button::{Button, State};
use crate::widget::mouse_area::MouseArea;
use crate::widget::text_input::TextInput;
use crate::geometry::{spec_is_over, Cursor};
use crate::widget::{
    contents_passive, contents_passive_seq, focus_entries, focus_entries_seq, inert, inert_seq,
    lemma_dispatch_non_press_preserves_entries, lemma_dispatch_press_entries,
    lemma_dispatched_preserves_passive, lemma_dispatched_preserves_wf, spec_dispatched,
    spec_entries_after_press, tree_wf, tree_wf_seq, FocusEntry, Widget,
};
use crate::event::{Event, Key};

verus! {

/// The capability a widget state exposes to take part in keyboard-focus
/// traversal.
pub trait Focusable: Sized {
    /// Whether this state currently holds keyboard focus.
    spec fn spec_focused(&self) -> bool;

    /// Whether this state may accept focus at all.
    spec fn spec_enabled(&self) -> bool;

    /// This state with its focus flag replaced by `focused` and nothing
    /// else changed.
    spec fn spec_with_focus(&self, focused: bool) -> Self;

    /// Reports whether the state holds focus.
    fn is_focused(&self) -> (b: bool)
        ensures
            b == self.spec_focused(),
    ;

    /// Grants focus, unless the state is disabled: focusing a disabled
    /// state is a no-op.
    fn focus(&mut self)
        ensures
            *final(self) == (if old(self).spec_enabled() {
                old(self).spec_with_focus(true)
            } else {
                *old(self)
            }),
    ;

    /// Removes focus; always succeeds.
    fn unfocus(&mut self)
        ensures
            *final(self) == old(self).spec_with_focus(false),
    ;
}

/// A tree-wide focus request, executed as one synchronous traversal and
/// discarded afterwards.
#[derive(Clone, Copy, PartialEq, Eq, Structural, Debug)]
pub enum Operation {
    /// Move focus to the next enabled focusable widget in traversal
    /// order, wrapping around at the end.
    FocusNext,
    /// Move focus to the previous enabled focusable widget in traversal
    /// order, wrapping around at the start.
    FocusPrevious,
    /// Report which widget currently holds focus, without changing
    /// anything.
    FindFocused,
}

/// What the target-choosing pass records of one focusable widget.
#[derive(Clone, Copy, PartialEq, Eq, Structural, Debug)]
pub struct FlagEntry {
    /// Whether the widget may accept focus.
    pub enabled: bool,
    /// Whether the widget currently holds focus.
    pub focused: bool,
}

/// The flags of a traversal's focus entries, in the same order.
pub open spec fn flags_of(es: Seq<FocusEntry>) -> Seq<FlagEntry> {
    es.map_values(|e: FocusEntry| FlagEntry { enabled: e.enabled, focused: e.focused })
}

/// An index option widened from the machine type contracts speak in.
pub open spec fn opt_int(o: Option<usize>) -> Option<int> {
    match o {
        Option::Some(i) => Option::Some(i as int),
        Option::None => Option::None,
    }
}

/// The first enabled entry at or after `k`, if any.
pub open spec fn spec_first_enabled_from(fs: Seq<FlagEntry>, k: int) -> Option<int>
    decreases fs.len() - k,
{
    if k < 0 || k >= fs.len() {
        Option::None
    } else if fs[k].enabled {
        Option::Some(k)
    } else {
        spec_first_enabled_from(fs, k + 1)
    }
}

/// The last enabled entry strictly before `k`, if any.
pub open spec fn spec_last_enabled_before(fs: Seq<FlagEntry>, k: int) -> Option<int>
    decreases k,
{
    if k <= 0 || k > fs.len() {
        Option::None
    } else if fs[k - 1].enabled {
        Option::Some(k - 1)
    } else {
        spec_last_enabled_before(fs, k - 1)
    }
}

/// The first focused entry at or after `k`, if any.
pub open spec fn spec_first_focused_from(fs: Seq<FlagEntry>, k: int) -> Option<int>
    decreases fs.len() - k,
{
    if k < 0 || k >= fs.len() {
        Option::None
    } else if fs[k].focused {
        Option::Some(k)
    } else {
        spec_first_focused_from(fs, k + 1)
    }
}

/// Where `FocusNext` moves focus: the first enabled entry after the
/// focused one, wrapping to the first enabled entry overall when none
/// follows or nothing is focused; `None` when nothing is enabled.
pub open spec fn spec_next_target(fs: Seq<FlagEntry>) -> Option<int> {
    match spec_first_focused_from(fs, 0) {
        Option::None => spec_first_enabled_from(fs, 0),
        Option::Some(i) => match spec_first_enabled_from(fs, i + 1) {
            Option::Some(j) => Option::Some(j),
            Option::None => spec_first_enabled_from(fs, 0),
        },
    }
}

/// Where `FocusPrevious` moves focus: the last enabled entry before the
/// focused one, wrapping to the last enabled entry overall when none
/// precedes or nothing is focused; `None` when nothing is enabled.
pub open spec fn spec_prev_target(fs: Seq<FlagEntry>) -> Option<int> {
    match spec_first_focused_from(fs, 0) {
        Option::None => spec_last_enabled_before(fs, fs.len() as int),
        Option::Some(i) => match spec_last_enabled_before(fs, i) {
            Option::Some(j) => Option::Some(j),
            Option::None => spec_last_enabled_before(fs, fs.len() as int),
        },
    }
}

/// How many entries are enabled.
pub open spec fn spec_enabled_count(fs: Seq<FlagEntry>) -> int
    decreases fs.len(),
{
    if fs.len() == 0 {
        0
    } else {
        (if fs[0].enabled {
            1int
        } else {
            0int
        }) + spec_enabled_count(fs.drop_first())
    }
}

/// At most one entry is focused.
pub open spec fn spec_at_most_one_focused(fs: Seq<FlagEntry>) -> bool {
    forall|i: int, j: int|
        0 <= i < fs.len() && 0 <= j < fs.len() && fs[i].focused && fs[j].focused ==> i == j
}

/// Every focused entry is enabled.
pub open spec fn spec_focused_are_enabled(fs: Seq<FlagEntry>) -> bool {
    forall|i: int| 0 <= i < fs.len() && fs[i].focused ==> fs[i].enabled
}

/// The flags after focus moved to `target`: the entry at `target` is
/// focused (if it accepts focus; a disabled target keeps its old flag)
/// and every other entry is unfocused.
pub open spec fn spec_flags_after(fs: Seq<FlagEntry>, target: Option<int>) -> Seq<FlagEntry> {
    Seq::new(
        fs.len(),
        |j: int|
            FlagEntry {
                enabled: fs[j].enabled,
                focused: if target == Option::Some(j) {
                    fs[j].enabled || fs[j].focused
                } else {
                    false
                },
            },
    )
}

/// What `FindFocused` reports after walking a traversal's entries: the
/// identity of the first focused entry, or `None` when nothing is
/// focused. The raw form distinguishes "no focused widget" from "the
/// focused widget has no identity".
pub open spec fn spec_find_raw(es: Seq<FocusEntry>) -> Option<Option<Identity>>
    decreases es.len(),
{
    if es.len() == 0 {
        Option::None
    } else if es[0].focused {
        Option::Some(es[0].id)
    } else {
        spec_find_raw(es.drop_first())
    }
}

/// The identity `FindFocused` returns: of the first focused entry, or
/// `None` when no widget is focused or the focused one has no identity.
pub open spec fn spec_found(es: Seq<FocusEntry>) -> Option<Identity> {
    match spec_find_raw(es) {
        Option::Some(id) => id,
        Option::None => Option::None,
    }
}

/// What a focus-moving pass leaves of one widget state whose traversal
/// index matched (`here`) or did not match the target: the matching
/// state is focused through the capability (so a disabled state refuses)
/// and every other state is unfocused.
pub open spec fn spec_state_after_focus(s: State, here: bool) -> State {
    if here {
        if s.spec_enabled() {
            s.spec_with_focus(true)
        } else {
            s
        }
    } else {
        s.spec_with_focus(false)
    }
}

/// Relates a tree to the tree a focus-moving pass leaves behind, where
/// the tree's focus entries occupy traversal indices `k` onwards and
/// focus moves to the entry at index `target`. Everything but the focus
/// flags of focusable widgets is unchanged.
pub open spec fn spec_focus_applied<M>(
    w: Widget<M>,
    k: int,
    target: Option<int>,
    w2: Widget<M>,
) -> bool
    decreases w,
{
    match w {
        Widget::Text(_) => w2 == w,
        Widget::PickList(_) => w2 == w,
        Widget::TextInput(t) => w2 == Widget::TextInput(
            TextInput {
                state: spec_state_after_focus(t.state, target == Option::Some(k)),
                ..t
            },
        ),
        Widget::Button(b) => {
            &&& w2 is Button
            &&& spec_focus_applied(*b.content, k + 1, target, *w2->Button_0.content)
            &&& w2->Button_0 == (Button {
                content: w2->Button_0.content,
                state: spec_state_after_focus(b.state, target == Option::Some(k)),
                ..b
            })
        }
        Widget::MouseArea(a) => {
            &&& w2 is MouseArea
            &&& spec_focus_applied(*a.child, k, target, *w2->MouseArea_0.child)
            &&& w2->MouseArea_0 == (MouseArea { child: w2->MouseArea_0.child, ..a })
        }
        Widget::Row(cs) => {
            &&& w2 is Row
            &&& spec_focus_applied_seq(cs@, k, target, w2->Row_0@)
        }
        Widget::Column(cs) => {
            &&& w2 is Column
            &&& spec_focus_applied_seq(cs@, k, target, w2->Column_0@)
        }
    }
}

/// Relates a forest to the forest a focus-moving pass leaves behind,
/// with the first tree's entries at traversal indices `k` onwards.
pub open spec fn spec_focus_applied_seq<M>(
    ws: Seq<Widget<M>>,
    k: int,
    target: Option<int>,
    ws2: Seq<Widget<M>>,
) -> bool
    decreases ws,
{
    if ws.len() == 0 {
        ws2.len() == 0
    } else {
        &&& ws2.len() == ws.len()
        &&& spec_focus_applied(ws[0], k, target, ws2[0])
        &&& spec_focus_applied_seq(
            ws.drop_first(),
            k + focus_entries(ws[0]).len(),
            target,
            ws2.drop_first(),
        )
    }
}

/// Extending a related prefix by one related tree keeps the forests
/// related, with the new tree's entries placed after the prefix's.
proof fn lemma_focus_applied_seq_snoc<M>(
    ws: Seq<Widget<M>>,
    i: int,
    k: int,
    target: Option<int>,
    res: Seq<Widget<M>>,
    x: Widget<M>,
)
    requires
        0 <= i < ws.len(),
        spec_focus_applied_seq(ws.subrange(0, i), k, target, res),
        spec_focus_applied(
            ws[i],
            k + focus_entries_seq(ws.subrange(0, i)).len(),
            target,
            x,
        ),
    ensures
        spec_focus_applied_seq(ws.subrange(0, i + 1), k, target, res.push(x)),
    decreases i,
{
    if i == 0 {
        assert(ws.subrange(0, 0) =~= Seq::<Widget<M>>::empty());
        assert(res.len() == 0);
        assert(focus_entries_seq(ws.subrange(0, 0)) =~= Seq::<FocusEntry>::empty());
        assert(ws.subrange(0, 1)[0] == ws[0]);
        assert(res.push(x)[0] == x);
        assert(ws.subrange(0, 1).drop_first() =~= Seq::<Widget<M>>::empty());
        assert(res.push(x).drop_first() =~= Seq::<Widget<M>>::empty());
        assert(spec_focus_applied(ws.subrange(0, 1)[0], k, target, res.push(x)[0]));
        assert(spec_focus_applied_seq(
            ws.subrange(0, 1).drop_first(),
            k + focus_entries(ws.subrange(0, 1)[0]).len(),
            target,
            res.push(x).drop_first(),
        ));
        assert(spec_focus_applied_seq(ws.subrange(0, i + 1), k, target, res.push(x)));
    } else {
        let pre = ws.subrange(0, i);
        assert(pre[0] == ws[0]);
        assert(res.len() == i);
        assert(spec_focus_applied(ws[0], k, target, res[0]));
        crate::widget::lemma_entries_seq_snoc(ws, i - 1);
        assert(pre.drop_first() =~= ws.drop_first().subrange(0, i - 1));
        let k1 = k + focus_entries(ws[0]).len();
        assert(spec_focus_applied_seq(ws.drop_first().subrange(0, i - 1), k1, target, res.drop_first()));
        assert(focus_entries_seq(ws.subrange(0, i)) =~= focus_entries(ws[0]) + focus_entries_seq(
            ws.drop_first().subrange(0, i - 1),
        )) by {
            assert(ws.subrange(0, i).drop_first() =~= ws.drop_first().subrange(0, i - 1));
        }
        assert(ws.drop_first()[i - 1] == ws[i]);
        lemma_focus_applied_seq_snoc(ws.drop_first(), i - 1, k1, target, res.drop_first(), x);
        assert(ws.subrange(0, i + 1)[0] == ws[0]);
        assert(ws.subrange(0, i + 1).drop_first() =~= ws.drop_first().subrange(0, i));
        assert(res.push(x)[0] == res[0]);
        assert(res.push(x).drop_first() =~= res.drop_first().push(x));
        assert(spec_focus_applied(ws.subrange(0, i + 1)[0], k, target, res.push(x)[0]));
        assert(spec_focus_applied_seq(
            ws.subrange(0, i + 1).drop_first(),
            k + focus_entries(ws.subrange(0, i + 1)[0]).len(),
            target,
            res.push(x).drop_first(),
        ));
        assert(spec_focus_applied_seq(ws.subrange(0, i + 1), k, target, res.push(x)));
    }
}

/// Collects the enabled and focused flags of a tree's focus entries, in
/// traversal order, appending them to `acc`.
#[verifier::loop_isolation(false)]
fn collect_flags<M>(w: &Widget<M>, acc: &mut Vec<FlagEntry>)
    ensures
        final(acc)@ == old(acc)@ + flags_of(focus_entries(*w)),
    decreases *w,
{
    match w {
        Widget::Text(_) => {
            proof {
                assert(old(acc)@ + flags_of(focus_entries(*w)) =~= acc@);
            }
        }
        Widget::PickList(_) => {
            proof {
                assert(old(acc)@ + flags_of(focus_entries(*w)) =~= acc@);
            }
        }
        Widget::TextInput(t) => {
            acc.push(FlagEntry { enabled: true, focused: t.state.is_focused });
            proof {
                assert(old(acc)@ + flags_of(focus_entries(*w)) =~= acc@);
            }
        }
        Widget::Button(b) => {
            acc.push(FlagEntry { enabled: b.on_press.is_some(), focused: b.state.is_focused });
            collect_flags(&*b.content, acc);
            proof {
                assert(old(acc)@ + flags_of(focus_entries(*w)) =~= acc@);
            }
        }
        Widget::MouseArea(a) => {
            collect_flags(&*a.child, acc);
            proof {
                assert(flags_of(focus_entries(*w)) =~= flags_of(focus_entries(*a.child)));
            }
        }
        Widget::Row(cs) => {
            collect_flags_seq(cs, acc);
        }
        Widget::Column(cs) => {
            collect_flags_seq(cs, acc);
        }
    }
}

/// Collects the flags of every tree of a forest, in order.
#[verifier::loop_isolation(false)]
fn collect_flags_seq<M>(ws: &Vec<Widget<M>>, acc: &mut Vec<FlagEntry>)
    ensures
        final(acc)@ == old(acc)@ + flags_of(focus_entries_seq(ws@)),
    decreases ws,
{
    let ghost acc0 = acc@;
    let mut i: usize = 0;
    proof {
        assert(focus_entries_seq(ws@.subrange(0, 0)) =~= Seq::<FocusEntry>::empty());
        assert(acc@ =~= acc0 + flags_of(focus_entries_seq(ws@.subrange(0, 0))));
    }
    while i < ws.len()
        invariant
            i <= ws.len(),
            acc@ == acc0 + flags_of(focus_entries_seq(ws@.subrange(0, i as int))),
        decreases ws.len() - i,
    {
        collect_flags(&ws[i], acc);
        proof {
            crate::widget::lemma_entries_seq_snoc(ws@, i as int);
            assert(acc@ =~= acc0 + flags_of(
                focus_entries_seq(ws@.subrange(0, i + 1 as int)),
            ));
        }
        i = i + 1;
    }
    proof {
        assert(ws@.subrange(0, ws@.len() as int) =~= ws@);
    }
}

/// Scans forward for the first enabled entry at or after `k`.
#[verifier::loop_isolation(false)]
fn first_enabled_from(fs: &Vec<FlagEntry>, k: usize) -> (r: Option<usize>)
    ensures
        opt_int(r) == spec_first_enabled_from(fs@, k as int),
{
    let mut i: usize = k;
    while i < fs.len()
        invariant
            k <= i,
            spec_first_enabled_from(fs@, k as int) == spec_first_enabled_from(fs@, i as int),
        decreases fs.len() - i,
    {
        if fs[i].enabled {
            return Option::Some(i);
        }
        i = i + 1;
    }
    Option::None
}

/// Scans backward for the last enabled entry strictly before `k`.
#[verifier::loop_isolation(false)]
fn last_enabled_before(fs: &Vec<FlagEntry>, k: usize) -> (r: Option<usize>)
    requires
        k <= fs@.len(),
    ensures
        opt_int(r) == spec_last_enabled_before(fs@, k as int),
{
    let mut i: usize = k;
    while i > 0
        invariant
            i <= k,
            spec_last_enabled_before(fs@, k as int) == spec_last_enabled_before(fs@, i as int),
        decreases i,
    {
        i = i - 1;
        if fs[i].enabled {
            return Option::Some(i);
        }
    }
    Option::None
}

/// Walks a tree applying one focus move: the widget whose traversal
/// index equals the target is focused through the [`Focusable`]
/// capability, every other focusable widget is unfocused. Returns the
/// tree and the traversal index after this subtree.
#[verifier::loop_isolation(false)]
fn apply_focus<M>(w: Widget<M>, k: usize, target: Option<usize>) -> (r: (Widget<M>, usize))
    requires
        tree_wf(w),
        k + focus_entries(w).len() <= usize::MAX,
    ensures
        r.1 == k + focus_entries(w).len(),
        spec_focus_applied(w, k as int, opt_int(target), r.0),
        tree_wf(r.0),
    decreases w,
{
    match w {
        Widget::Text(s) => (Widget::Text(s), k),
        Widget::PickList(p) => (Widget::PickList(p), k),
        Widget::TextInput(t) => {
            let mut t = t;
            let here = match target {
                Option::Some(tt) => tt == k,
                Option::None => false,
            };
            if here {
                t.state.focus();
            } else {
                t.state.unfocus();
            }
            (Widget::TextInput(t), k + 1)
        }
        Widget::Button(b) => {
            let Button { content, on_press, on_focus, on_blur, id, bounds, clip, state } = b;
            let mut state = state;
            let here = match target {
                Option::Some(tt) => tt == k,
                Option::None => false,
            };
            if here {
                state.focus();
            } else {
                state.unfocus();
            }
            let (c2, k2) = apply_focus(*content, k + 1, target);
            (
                Widget::Button(
                    Button {
                        content: Box::new(c2),
                        on_press,
                        on_focus,
                        on_blur,
                        id,
                        bounds,
                        clip,
                        state,
                    },
                ),
                k2,
            )
        }
        Widget::MouseArea(a) => {
            let MouseArea { child, bounds, on_press, on_release } = a;
            let (c2, k2) = apply_focus(*child, k, target);
            (
                Widget::MouseArea(MouseArea { child: Box::new(c2), bounds, on_press, on_release }),
                k2,
            )
        }
        Widget::Row(cs) => {
            let (res, k2) = apply_focus_children(cs, k, target);
            (Widget::Row(res), k2)
        }
        Widget::Column(cs) => {
            let (res, k2) = apply_focus_children(cs, k, target);
            (Widget::Column(res), k2)
        }
    }
}

/// Applies one focus move to every tree of a forest in order, threading
/// the traversal index.
#[verifier::loop_isolation(false)]
fn apply_focus_children<M>(cs: Vec<Widget<M>>, k: usize, target: Option<usize>) -> (r: (
    Vec<Widget<M>>,
    usize,
))
    requires
        tree_wf_seq(cs@),
        k + focus_entries_seq(cs@).len() <= usize::MAX,
    ensures
        r.1 == k + focus_entries_seq(cs@).len(),
        spec_focus_applied_seq(cs@, k as int, opt_int(target), r.0@),
        tree_wf_seq(r.0@),
    decreases cs,
{
    let mut cs = cs;
    let ghost orig = cs@;
    let mut res: Vec<Widget<M>> = Vec::new();
    let mut kk: usize = k;
    proof {
        assert(orig.subrange(0, 0) =~= Seq::<Widget<M>>::empty());
        assert(focus_entries_seq(orig.subrange(0, 0)) =~= Seq::<FocusEntry>::empty());
    }
    while cs.len() > 0
        invariant
            cs@.len() <= orig.len(),
            cs@ =~= orig.subrange(orig.len() - cs@.len(), orig.len() as int),
            tree_wf_seq(cs@),
            res@.len() == orig.len() - cs@.len(),
            spec_focus_applied_seq(
                orig.subrange(0, res@.len() as int),
                k as int,
                opt_int(target),
                res@,
            ),
            forall|i: int| 0 <= i < res@.len() ==> tree_wf(#[trigger] res@[i]),
            kk == k + focus_entries_seq(orig.subrange(0, res@.len() as int)).len(),
            kk + focus_entries_seq(cs@).len() <= usize::MAX,
        decreases cs@.len(),
    {
        let ghost i = orig.len() - cs@.len();
        let ghost cs_before = cs@;
        let c = cs.remove(0);
        proof {
            assert(c == orig[i]);
            assert(cs@ =~= cs_before.drop_first());
            assert(tree_wf(c) && tree_wf_seq(cs@)) by {
                assert(cs_before[0] == c);
            }
            assert(focus_entries_seq(cs_before) =~= focus_entries(c) + focus_entries_seq(cs@)) by {
                assert(cs_before[0] == c);
            }
        }
        let (c2, k2) = apply_focus(c, kk, target);
        proof {
            lemma_focus_applied_seq_snoc(orig, i, k as int, opt_int(target), res@, c2);
            crate::widget::lemma_entries_seq_snoc(orig, i);
        }
        res.push(c2);
        kk = k2;
    }
    proof {
        assert(orig.subrange(0, orig.len() as int) =~= orig);
        crate::widget::lemma_tree_wf_seq_iff_all(res@);
    }
    (res, kk)
}

/// Splitting a traversal: the first focused entry of a concatenation is
/// the first of the left part, or of the right when the left has none.
proof fn lemma_find_raw_concat(a: Seq<FocusEntry>, b: Seq<FocusEntry>)
    ensures
        spec_find_raw(a + b) == (if spec_find_raw(a) is Some {
            spec_find_raw(a)
        } else {
            spec_find_raw(b)
        }),
    decreases a.len(),
{
    if a.len() == 0 {
        assert(a + b =~= b);
    } else {
        lemma_find_raw_concat(a.drop_first(), b);
        assert((a + b)[0] == a[0]);
        assert((a + b).drop_first() =~= a.drop_first() + b);
        assert((a + b).len() > 0);
    }
}

/// Walks a tree looking for the first focused focusable widget.
#[verifier::loop_isolation(false)]
#[verifier::rlimit(100)]
#[verifier::spinoff_prover]
fn find_in<M>(w: &Widget<M>) -> (r: Option<Option<Identity>>)
    ensures
        (r is Some) == (spec_find_raw(focus_entries(*w)) is Some),
        r is Some ==> r->0 == spec_find_raw(focus_entries(*w))->0,
    decreases *w,
{
    match w {
        Widget::Text(_) => {
            proof {
                assert(focus_entries(*w) =~= Seq::<FocusEntry>::empty());
                assert(spec_find_raw(focus_entries(*w)) is None);
            }
            Option::None
        }
        Widget::PickList(_) => {
            proof {
                assert(focus_entries(*w) =~= Seq::<FocusEntry>::empty());
                assert(spec_find_raw(focus_entries(*w)) is None);
            }
            Option::None
        }
        Widget::TextInput(t) => {
            proof {
                assert(focus_entries(*w)[0].focused == t.state.is_focused);
                assert(focus_entries(*w)[0].id == t.id);
                assert(focus_entries(*w).drop_first() =~= Seq::<FocusEntry>::empty());
            }
            if t.state.is_focused {
                match &t.id {
                    Option::Some(id) => Option::Some(Option::Some(id.duplicate())),
                    Option::None => Option::Some(Option::None),
                }
            } else {
                Option::None
            }
        }
        Widget::Button(b) => {
            proof {
                assert(focus_entries(*w)[0].focused == b.state.is_focused);
                assert(focus_entries(*w)[0].id == b.id);
                assert(focus_entries(*w).drop_first() =~= focus_entries(*b.content));
            }
            if b.state.is_focused {
                match &b.id {
                    Option::Some(id) => Option::Some(Option::Some(id.duplicate())),
                    Option::None => Option::Some(Option::None),
                }
            } else {
                let r0 = find_in(&*b.content);
                proof {
                    assert((r0 is Some) == (spec_find_raw(focus_entries(*w)) is Some));
                }
                r0
            }
        }
        Widget::MouseArea(a) => {
            let r0 = find_in(&*a.child);
            proof {
                assert(focus_entries(*w) == focus_entries(*a.child));
            }
            r0
        }
        Widget::Row(cs) => {
            let r0 = find_in_seq(cs);
            proof {
                assert(focus_entries(*w) == focus_entries_seq(cs@));
            }
            r0
        }
        Widget::Column(cs) => {
            let r0 = find_in_seq(cs);
            proof {
                assert(focus_entries(*w) == focus_entries_seq(cs@));
            }
            r0
        }
    }
}

/// Walks a forest looking for the first focused focusable widget.
#[verifier::loop_isolation(false)]
fn find_in_seq<M>(ws: &Vec<Widget<M>>) -> (r: Option<Option<Identity>>)
    ensures
        (r is Some) == (spec_find_raw(focus_entries_seq(ws@)) is Some),
        r is Some ==> r->0 == spec_find_raw(focus_entries_seq(ws@))->0,
    decreases ws,
{
    let mut i: usize = 0;
    proof {
        assert(ws@.subrange(0, ws@.len() as int) =~= ws@);
    }
    while i < ws.len()
        invariant
            i <= ws.len(),
            spec_find_raw(focus_entries_seq(ws@)) == spec_find_raw(
                focus_entries_seq(ws@.subrange(i as int, ws@.len() as int)),
            ),
        decreases ws.len() - i,
    {
        let r = find_in(&ws[i]);
        proof {
            let tail = ws@.subrange(i as int, ws@.len() as int);
            assert(tail[0] == ws@[i as int]);
            assert(tail.drop_first() =~= ws@.subrange(i + 1 as int, ws@.len() as int));
            assert(focus_entries_seq(tail) == focus_entries(ws@[i as int]) + focus_entries_seq(
                ws@.subrange(i + 1 as int, ws@.len() as int),
            ));
            lemma_find_raw_concat(
                focus_entries(ws@[i as int]),
                focus_entries_seq(ws@.subrange(i + 1 as int, ws@.len() as int)),
            );
        }
        if let Option::Some(found) = r {
            return Option::Some(found);
        }
        i = i + 1;
    }
    proof {
        assert(ws@.subrange(ws@.len() as int, ws@.len() as int) =~= Seq::<Widget<M>>::empty());
    }
    Option::None
}

/// Applies one [`Operation`] to a tree root and returns the updated
/// tree together with the operation's result, in one synchronous walk.
///
/// `FindFocused` leaves the tree untouched and reports the focused
/// widget's identity. `FocusNext` and `FocusPrevious` move focus to the
/// chosen target — skipping disabled widgets, wrapping around at the
/// ends, and unfocusing everything else — and report nothing.
pub fn run<M>(op: Operation, root: Widget<M>) -> (r: (Widget<M>, Option<Identity>))
    requires
        tree_wf(root),
    ensures
        tree_wf(r.0),
        op is FindFocused ==> r.0 == root && r.1 == spec_found(focus_entries(root)),
        op is FocusNext ==> spec_focus_applied(
            root,
            0,
            spec_next_target(flags_of(focus_entries(root))),
            r.0,
        ) && r.1 is None,
        op is FocusPrevious ==> spec_focus_applied(
            root,
            0,
            spec_prev_target(flags_of(focus_entries(root))),
            r.0,
        ) && r.1 is None,
{
    match op {
        Operation::FindFocused => {
            let found = find_in(&root);
            let res = match found {
                Option::Some(id) => id,
                Option::None => Option::None,
            };
            (root, res)
        }
        Operation::FocusNext => {
            let mut flags: Vec<FlagEntry> = Vec::new();
            collect_flags(&root, &mut flags);
            proof {
                assert(flags@ =~= flags_of(focus_entries(root)));
            }
            let target = match first_focused(&flags) {
                Option::None => first_enabled_from(&flags, 0),
                Option::Some(i) => {
                    proof {
                        lemma_first_focused_bounds(flags@, 0);
                    }
                    match first_enabled_from(&flags, i + 1) {
                        Option::Some(j) => Option::Some(j),
                        Option::None => first_enabled_from(&flags, 0),
                    }
                }
            };
            proof {
                assert(opt_int(target) == spec_next_target(flags@));
                assert(focus_entries(root).len() == flags@.len());
            }
            let (w2, _k) = apply_focus(root, 0, target);
            (w2, Option::None)
        }
        Operation::FocusPrevious => {
            let mut flags: Vec<FlagEntry> = Vec::new();
            collect_flags(&root, &mut flags);
            proof {
                assert(flags@ =~= flags_of(focus_entries(root)));
            }
            let target = match first_focused(&flags) {
                Option::None => last_enabled_before(&flags, flags.len()),
                Option::Some(i) => {
                    proof {
                        lemma_first_focused_bounds(flags@, 0);
                    }
                    match last_enabled_before(&flags, i) {
                        Option::Some(j) => Option::Some(j),
                        Option::None => last_enabled_before(&flags, flags.len()),
                    }
                }
            };
            proof {
                assert(opt_int(target) == spec_prev_target(flags@));
                assert(focus_entries(root).len() == flags@.len());
            }
            let (w2, _k) = apply_focus(root, 0, target);
            (w2, Option::None)
        }
    }
}

/// Where the first-focused scan can land: on a focused entry at or after
/// the start, with nothing focused before it; or nowhere, when nothing
/// at or after the start is focused.
pub proof fn lemma_first_focused_bounds(fs: Seq<FlagEntry>, k: int)
    requires
        0 <= k,
    ensures
        match spec_first_focused_from(fs, k) {
            Option::Some(i) => k <= i < fs.len() && fs[i].focused && (forall|m: int|
                k <= m < i ==> !fs[m].focused),
            Option::None => forall|m: int| k <= m < fs.len() ==> !fs[m].focused,
        },
    decreases fs.len() - k,
{
    if k < fs.len() && !fs[k].focused {
        lemma_first_focused_bounds(fs, k + 1);
    }
}

/// Where the first-enabled scan can land: on an enabled entry at or
/// after the start, with nothing enabled between; or nowhere, when
/// nothing at or after the start is enabled.
pub proof fn lemma_first_enabled_bounds(fs: Seq<FlagEntry>, k: int)
    requires
        0 <= k,
    ensures
        match spec_first_enabled_from(fs, k) {
            Option::Some(i) => k <= i < fs.len() && fs[i].enabled && (forall|m: int|
                k <= m < i ==> !fs[m].enabled),
            Option::None => forall|m: int| k <= m < fs.len() ==> !fs[m].enabled,
        },
    decreases fs.len() - k,
{
    if k < fs.len() && !fs[k].enabled {
        lemma_first_enabled_bounds(fs, k + 1);
    }
}

/// Where the last-enabled scan can land: on an enabled entry strictly
/// before the bound, with nothing enabled between; or nowhere, when
/// nothing before the bound is enabled.
pub proof fn lemma_last_enabled_bounds(fs: Seq<FlagEntry>, k: int)
    requires
        k <= fs.len(),
    ensures
        match spec_last_enabled_before(fs, k) {
            Option::Some(j) => 0 <= j < k && fs[j].enabled && (forall|m: int|
                j < m < k ==> !fs[m].enabled),
            Option::None => forall|m: int| 0 <= m < k ==> !fs[m].enabled,
        },
    decreases k,
{
    if k > 0 && !fs[k - 1].enabled {
        lemma_last_enabled_bounds(fs, k - 1);
    }
}

/// Scans forward for the first focused entry.
#[verifier::loop_isolation(false)]
fn first_focused(fs: &Vec<FlagEntry>) -> (r: Option<usize>)
    ensures
        opt_int(r) == spec_first_focused_from(fs@, 0),
{
    let mut i: usize = 0;
    while i < fs.len()
        invariant
            spec_first_focused_from(fs@, 0) == spec_first_focused_from(fs@, i as int),
        decreases fs.len() - i,
    {
        if fs[i].focused {
            return Option::Some(i);
        }
        i = i + 1;
    }
    Option::None
}


/// A scan that starts at the first focused entry: if `j` is focused and
/// nothing before it is, the forward scan lands exactly on `j`.
proof fn lemma_first_focused_exact(fs: Seq<FlagEntry>, k: int, j: int)
    requires
        0 <= k <= j < fs.len(),
        fs[j].focused,
        forall|m: int| k <= m < j ==> !fs[m].focused,
    ensures
        spec_first_focused_from(fs, k) == Option::Some(j),
    decreases j - k,
{
    if k < j {
        lemma_first_focused_exact(fs, k + 1, j);
    }
}

/// A backward scan over a gap without enabled entries: if `j` is enabled
/// and nothing strictly between `j` and the bound is, the scan lands
/// exactly on `j`.
proof fn lemma_last_enabled_exact(fs: Seq<FlagEntry>, k: int, j: int)
    requires
        0 <= j < k <= fs.len(),
        fs[j].enabled,
        forall|m: int| j < m < k ==> !fs[m].enabled,
    ensures
        spec_last_enabled_before(fs, k) == Option::Some(j),
    decreases k - j,
{
    if j < k - 1 {
        lemma_last_enabled_exact(fs, k - 1, j);
    }
}

/// When nothing is enabled, the enabled count is zero.
proof fn lemma_enabled_count_zero(fs: Seq<FlagEntry>)
    requires
        forall|m: int| 0 <= m < fs.len() ==> !fs[m].enabled,
    ensures
        spec_enabled_count(fs) == 0,
    decreases fs.len(),
{
    if fs.len() > 0 {
        assert(forall|m: int|
            0 <= m < fs.drop_first().len() ==> fs.drop_first()[m] == fs[m + 1]
                && !fs.drop_first()[m].enabled);
        lemma_enabled_count_zero(fs.drop_first());
    }
}

/// When at most one index is enabled, the enabled count is at most one.
proof fn lemma_enabled_count_at_most_one(fs: Seq<FlagEntry>, i: int)
    requires
        forall|m: int| 0 <= m < fs.len() && m != i ==> !fs[m].enabled,
    ensures
        spec_enabled_count(fs) <= 1,
    decreases fs.len(),
{
    if fs.len() > 0 {
        assert(forall|m: int|
            0 <= m < fs.drop_first().len() && m != i - 1 ==> fs.drop_first()[m] == fs[m + 1]
                && !fs.drop_first()[m].enabled);
        if i == 0 {
            assert(forall|m: int|
                0 <= m < fs.drop_first().len() ==> !fs.drop_first()[m].enabled);
            lemma_enabled_count_zero(fs.drop_first());
        } else {
            assert(!fs[0].enabled);
            lemma_enabled_count_at_most_one(fs.drop_first(), i - 1);
        }
    }
}

/// The flags after a focus move keep every enabled flag and focus at
/// most the target, so at most one entry is focused and only an enabled
/// or previously focused target is.
pub proof fn lemma_flags_after_shape(fs: Seq<FlagEntry>, target: Option<int>)
    ensures
        spec_flags_after(fs, target).len() == fs.len(),
        forall|m: int|
            0 <= m < fs.len() ==> #[trigger] spec_flags_after(fs, target)[m].enabled
                == fs[m].enabled,
        spec_at_most_one_focused(spec_flags_after(fs, target)),
        spec_focused_are_enabled(fs) ==> spec_focused_are_enabled(spec_flags_after(fs, target)),
{
}

/// Moving focus forward and then backward returns it to where it
/// started: on flags with a focused, enabled entry and at least two
/// enabled entries, the target `FocusPrevious` picks after `FocusNext`
/// ran is the entry that was focused at the start.
pub proof fn lemma_next_then_prev(fs: Seq<FlagEntry>, i: int)
    requires
        spec_first_focused_from(fs, 0) == Option::Some(i),
        0 <= i < fs.len(),
        fs[i].enabled,
        spec_at_most_one_focused(fs),
        spec_enabled_count(fs) >= 2,
    ensures
        spec_next_target(fs) is Some,
        spec_prev_target(spec_flags_after(fs, spec_next_target(fs))) == Option::Some(i),
{
    lemma_first_focused_bounds(fs, 0);
    lemma_first_enabled_bounds(fs, i + 1);
    lemma_first_enabled_bounds(fs, 0);
    let j_opt = spec_next_target(fs);
    // The next target exists and is an enabled entry distinct from i.
    let j = match spec_first_enabled_from(fs, i + 1) {
        Option::Some(j) => j,
        Option::None => {
            // wrap around: the first enabled entry overall
            match spec_first_enabled_from(fs, 0) {
                Option::Some(j0) => {
                    if j0 == i {
                        // then i would be the only enabled entry
                        assert(forall|m: int|
                            0 <= m < fs.len() && m != i ==> !fs[m].enabled) by {
                            assert(forall|m: int| i + 1 <= m < fs.len() ==> !fs[m].enabled);
                            assert(forall|m: int| 0 <= m < i ==> !fs[m].enabled);
                        }
                        lemma_enabled_count_at_most_one(fs, i);
                        assert(false);
                    }
                    j0
                }
                Option::None => {
                    assert(false);
                    0
                }
            }
        }
    };
    assert(j_opt == Option::Some(j));
    assert(fs[j].enabled);
    assert(j != i);
    let fs2 = spec_flags_after(fs, Option::Some(j));
    lemma_flags_after_shape(fs, Option::Some(j));
    assert(fs2[j].focused);
    assert(forall|m: int| 0 <= m < j ==> !fs2[m].focused);
    lemma_first_focused_exact(fs2, 0, j);
    assert(spec_first_focused_from(fs2, 0) == Option::Some(j));
    if j > i {
        // i is the nearest enabled entry before j
        assert(forall|m: int| i < m < j ==> !fs2[m].enabled);
        lemma_last_enabled_exact(fs2, j, i);
        assert(spec_last_enabled_before(fs2, j) == Option::Some(i));
    } else {
        // wrapped: j is the first enabled entry overall and i the last
        assert(forall|m: int| 0 <= m < j ==> !fs[m].enabled);
        lemma_last_enabled_bounds(fs2, j);
        match spec_last_enabled_before(fs2, j) {
            Option::Some(x) => {
                assert(fs2[x].enabled && x < j);
                assert(false);
            }
            Option::None => {}
        }
        // the backward scan from the end lands on i
        assert(forall|m: int| i + 1 <= m < fs.len() ==> !fs[m].enabled);
        lemma_last_enabled_exact(fs2, fs2.len() as int, i);
        assert(spec_last_enabled_before(fs2, fs2.len() as int) == Option::Some(i));
    }
}

/// Wraparound forward: when the focused entry is the last enabled one,
/// `FocusNext` picks the first enabled entry overall.
pub proof fn lemma_next_wraps_to_first(fs: Seq<FlagEntry>, i: int)
    requires
        spec_first_focused_from(fs, 0) == Option::Some(i),
        0 <= i < fs.len(),
        forall|m: int| i < m < fs.len() ==> !fs[m].enabled,
    ensures
        spec_next_target(fs) == spec_first_enabled_from(fs, 0),
{
    lemma_first_enabled_bounds(fs, i + 1);
    match spec_first_enabled_from(fs, i + 1) {
        Option::Some(j) => {
            assert(fs[j].enabled && i < j);
            assert(false);
        }
        Option::None => {}
    }
}

/// Wraparound backward: when the focused entry is the first enabled
/// one, `FocusPrevious` picks the last enabled entry overall.
pub proof fn lemma_prev_wraps_to_last(fs: Seq<FlagEntry>, i: int)
    requires
        spec_first_focused_from(fs, 0) == Option::Some(i),
        0 <= i < fs.len(),
        forall|m: int| 0 <= m < i ==> !fs[m].enabled,
    ensures
        spec_prev_target(fs) == spec_last_enabled_before(fs, fs.len() as int),
{
    lemma_last_enabled_bounds(fs, i);
    match spec_last_enabled_before(fs, i) {
        Option::Some(j) => {
            assert(fs[j].enabled && j < i);
            assert(false);
        }
        Option::None => {}
    }
}


/// The focus entries after a focus move: the entry whose traversal index
/// (starting at `k`) matches the target is focused if it accepts focus,
/// keeps its flag if it is disabled, and every other entry is unfocused;
/// nothing else about an entry changes.
pub open spec fn spec_entries_after(es: Seq<FocusEntry>, k: int, target: Option<int>) -> Seq<
    FocusEntry,
> {
    Seq::new(
        es.len(),
        |j: int|
            FocusEntry {
                enabled: es[j].enabled,
                focused: if target == Option::Some(k + j) {
                    es[j].enabled || es[j].focused
                } else {
                    false
                },
                id: es[j].id,
                bounds: es[j].bounds,
            },
    )
}

/// The focus move distributes over concatenation of traversals.
proof fn lemma_entries_after_concat(a: Seq<FocusEntry>, b: Seq<FocusEntry>, k: int, target: Option<int>)
    ensures
        spec_entries_after(a + b, k, target) =~= spec_entries_after(a, k, target)
            + spec_entries_after(b, k + a.len(), target),
{
    assert forall|j: int| 0 <= j < a.len() + b.len() implies spec_entries_after(a + b, k, target)[j]
        == (spec_entries_after(a, k, target) + spec_entries_after(b, k + a.len(), target))[j] by {
        if j < a.len() {
            assert((a + b)[j] == a[j]);
        } else {
            assert((a + b)[j] == b[j - a.len()]);
        }
    }
}

/// A focus-moving pass transforms a tree's focus entries exactly as
/// [`spec_entries_after`] says: focus lands on the target (where
/// accepted) and leaves everything else untouched.
pub proof fn lemma_focus_applied_entries<M>(
    w: Widget<M>,
    k: int,
    target: Option<int>,
    w2: Widget<M>,
)
    requires
        tree_wf(w),
        spec_focus_applied(w, k, target, w2),
    ensures
        focus_entries(w2) == spec_entries_after(focus_entries(w), k, target),
    decreases w,
{
    match w {
        Widget::Text(_) => {
            assert(focus_entries(w2) =~= spec_entries_after(focus_entries(w), k, target));
        }
        Widget::PickList(_) => {
            assert(focus_entries(w2) =~= spec_entries_after(focus_entries(w), k, target));
        }
        Widget::TextInput(t) => {
            assert(focus_entries(w2) =~= spec_entries_after(focus_entries(w), k, target));
        }
        Widget::Button(b) => {
            let b2 = w2->Button_0;
            lemma_focus_applied_entries(*b.content, k + 1, target, *b2.content);
            let own = focus_entries(w)[0];
            let es = focus_entries(w);
            let es2 = focus_entries(w2);
            assert(es2[0].focused == spec_state_after_focus(
                b.state,
                target == Option::Some(k),
            ).is_focused);
            assert(es2.drop_first() =~= focus_entries(*b2.content));
            assert(es.drop_first() =~= focus_entries(*b.content));
            assert forall|j: int| 0 <= j < es.len() implies es2[j] == spec_entries_after(
                es,
                k,
                target,
            )[j] by {
                if j == 0 {
                    assert(own.enabled == (b.on_press is Some));
                } else {
                    assert(es2[j] == focus_entries(*b2.content)[j - 1]);
                    assert(es[j] == focus_entries(*b.content)[j - 1]);
                    assert(focus_entries(*b2.content)[j - 1] == spec_entries_after(
                        focus_entries(*b.content),
                        k + 1,
                        target,
                    )[j - 1]);
                }
            }
            assert(es2 =~= spec_entries_after(es, k, target));
        }
        Widget::MouseArea(a) => {
            lemma_focus_applied_entries(*a.child, k, target, *w2->MouseArea_0.child);
            assert(focus_entries(w2) =~= spec_entries_after(focus_entries(w), k, target));
        }
        Widget::Row(cs) => {
            lemma_focus_applied_entries_seq(cs@, k, target, w2->Row_0@);
            assert(focus_entries(w2) =~= spec_entries_after(focus_entries(w), k, target));
        }
        Widget::Column(cs) => {
            lemma_focus_applied_entries_seq(cs@, k, target, w2->Column_0@);
            assert(focus_entries(w2) =~= spec_entries_after(focus_entries(w), k, target));
        }
    }
}

/// The forest version of [`lemma_focus_applied_entries`].
proof fn lemma_focus_applied_entries_seq<M>(
    ws: Seq<Widget<M>>,
    k: int,
    target: Option<int>,
    ws2: Seq<Widget<M>>,
)
    requires
        tree_wf_seq(ws),
        spec_focus_applied_seq(ws, k, target, ws2),
    ensures
        focus_entries_seq(ws2) == spec_entries_after(focus_entries_seq(ws), k, target),
    decreases ws,
{
    if ws.len() == 0 {
        assert(focus_entries_seq(ws2) =~= spec_entries_after(focus_entries_seq(ws), k, target));
    } else {
        lemma_focus_applied_entries(ws[0], k, target, ws2[0]);
        lemma_focus_applied_entries_seq(
            ws.drop_first(),
            k + focus_entries(ws[0]).len(),
            target,
            ws2.drop_first(),
        );
        lemma_entries_after_concat(
            focus_entries(ws[0]),
            focus_entries_seq(ws.drop_first()),
            k,
            target,
        );
        assert(focus_entries_seq(ws2) == focus_entries(ws2[0]) + focus_entries_seq(
            ws2.drop_first(),
        ));
        assert(focus_entries_seq(ws) == focus_entries(ws[0]) + focus_entries_seq(
            ws.drop_first(),
        ));
    }
}

/// Flags commute with the focus move: reading the flags of the entries
/// after the move gives the flags-level move of the original flags.
pub proof fn lemma_flags_of_entries_after(es: Seq<FocusEntry>, target: Option<int>)
    ensures
        flags_of(spec_entries_after(es, 0, target)) =~= spec_flags_after(flags_of(es), target),
{
}

/// A focus operation restores the single-focus invariant outright:
/// after any focus move, at most one widget in the whole tree reports
/// itself focused, and every focused widget is one that accepts focus
/// or was focused already.
pub proof fn lemma_operation_single_focus<M>(w: Widget<M>, target: Option<int>, w2: Widget<M>)
    requires
        tree_wf(w),
        spec_focus_applied(w, 0, target, w2),
    ensures
        spec_at_most_one_focused(flags_of(focus_entries(w2))),
        spec_focused_are_enabled(flags_of(focus_entries(w))) ==> spec_focused_are_enabled(
            flags_of(focus_entries(w2)),
        ),
{
    lemma_focus_applied_entries(w, 0, target, w2);
    lemma_flags_of_entries_after(focus_entries(w), target);
    lemma_flags_after_shape(flags_of(focus_entries(w)), target);
}

/// Focus forward then backward is the identity on the focus holder: on
/// a tree holding focus at traversal index `i`, an enabled entry, with
/// at least two enabled entries in the traversal, running `FocusNext`
/// and then `FocusPrevious` leaves focus exactly where it started.
pub proof fn lemma_focus_next_then_previous<M>(
    w: Widget<M>,
    w2: Widget<M>,
    w3: Widget<M>,
    i: int,
)
    requires
        tree_wf(w),
        tree_wf(w2),
        spec_first_focused_from(flags_of(focus_entries(w)), 0) == Option::Some(i),
        0 <= i < focus_entries(w).len(),
        flags_of(focus_entries(w))[i].enabled,
        spec_at_most_one_focused(flags_of(focus_entries(w))),
        spec_enabled_count(flags_of(focus_entries(w))) >= 2,
        spec_focus_applied(w, 0, spec_next_target(flags_of(focus_entries(w))), w2),
        spec_focus_applied(w2, 0, spec_prev_target(flags_of(focus_entries(w2))), w3),
    ensures
        spec_first_focused_from(flags_of(focus_entries(w3)), 0) == Option::Some(i),
        spec_at_most_one_focused(flags_of(focus_entries(w3))),
{
    let fs = flags_of(focus_entries(w));
    lemma_next_then_prev(fs, i);
    lemma_focus_applied_entries(w, 0, spec_next_target(fs), w2);
    lemma_flags_of_entries_after(focus_entries(w), spec_next_target(fs));
    let fs2 = flags_of(focus_entries(w2));
    assert(fs2 == spec_flags_after(fs, spec_next_target(fs)));
    assert(spec_prev_target(fs2) == Option::Some(i));
    lemma_focus_applied_entries(w2, 0, Option::Some(i), w3);
    lemma_flags_of_entries_after(focus_entries(w2), Option::Some(i));
    let fs3 = flags_of(focus_entries(w3));
    assert(fs3 == spec_flags_after(fs2, Option::Some(i)));
    lemma_flags_after_shape(fs2, Option::Some(i));
    lemma_flags_after_shape(fs, spec_next_target(fs));
    assert(fs2[i].enabled == fs[i].enabled);
    assert(fs3[i].focused);
    assert(forall|m: int| 0 <= m < i ==> !fs3[m].focused);
    lemma_first_focused_exact(fs3, 0, i);
}


/// At most one focusable widget lies under the pointer: no two enabled
/// entries' bounds both contain the cursor position. A layout that does
/// not overlap interactive widgets satisfies this.
pub open spec fn spec_at_most_one_hit(es: Seq<FocusEntry>, cur: Cursor) -> bool {
    forall|i: int, j: int|
        0 <= i < es.len() && 0 <= j < es.len() && es[i].enabled && es[j].enabled && spec_is_over(
            cur,
            es[i].bounds,
        ) && spec_is_over(cur, es[j].bounds) ==> i == j
}

/// The single-focus invariant survives event dispatch: on a tree whose
/// buttons have passive contents, where at most one widget was focused,
/// every focused widget accepts focus, and — for a pointer press — at
/// most one focusable widget lies under the pointer, the tree after the
/// pass again has at most one focused widget, and it accepts focus.
///
/// Together with [`lemma_operation_single_focus`], which re-establishes
/// the invariant after every focus operation, this gives the invariant
/// for any interleaving of input events and operations.
pub proof fn lemma_dispatch_single_focus<M>(w: Widget<M>, ev: Event, cur: Cursor, w2: Widget<M>)
    requires
        spec_dispatched(w, ev, cur, w2),
        contents_passive(w),
        spec_at_most_one_focused(flags_of(focus_entries(w))),
        spec_focused_are_enabled(flags_of(focus_entries(w))),
        ev is PointerPressed ==> spec_at_most_one_hit(focus_entries(w), cur),
    ensures
        spec_at_most_one_focused(flags_of(focus_entries(w2))),
        spec_focused_are_enabled(flags_of(focus_entries(w2))),
{
    let es = focus_entries(w);
    let es2 = focus_entries(w2);
    if ev is PointerPressed {
        lemma_dispatch_press_entries(w, cur, w2);
        assert(es2 == spec_entries_after_press(es, cur));
        assert forall|j: int| 0 <= j < es2.len() && #[trigger] es2[j].focused implies es2[j].enabled
            && spec_is_over(cur, es[j].bounds) by {
            assert(flags_of(es)[j].focused == es[j].focused);
            assert(flags_of(es)[j].enabled == es[j].enabled);
        }
        assert forall|i: int, j: int|
            0 <= i < es2.len() && 0 <= j < es2.len() && flags_of(es2)[i].focused && flags_of(
                es2,
            )[j].focused implies i == j by {
            assert(es2[i].focused && es2[j].focused);
        }
        assert(spec_focused_are_enabled(flags_of(es2)));
    } else {
        lemma_dispatch_non_press_preserves_entries(w, ev, cur, w2);
    }
}


/// A deferred, composable unit of work: nothing, one outward message,
/// one tree-wide focus operation, or two tasks in sequence. Composing a
/// task has no effect; its steps run, in their declared order, only when
/// a runtime drives it through [`run_task`].
pub enum Task<M> {
    /// The terminal no-op task.
    Nothing,
    /// Publish one message when run.
    Message(M),
    /// Run one focus operation against the tree when run.
    Operate(Operation),
    /// Run the first task to completion, then the second.
    Chain(Box<Task<M>>, Box<Task<M>>),
}

/// What running one operation does to the tree: `FindFocused` leaves it
/// untouched, the focus moves apply their target.
pub open spec fn spec_op_ran<M>(op: Operation, w: Widget<M>, w2: Widget<M>) -> bool {
    match op {
        Operation::FindFocused => w2 == w,
        Operation::FocusNext => spec_focus_applied(
            w,
            0,
            spec_next_target(flags_of(focus_entries(w))),
            w2,
        ),
        Operation::FocusPrevious => spec_focus_applied(
            w,
            0,
            spec_prev_target(flags_of(focus_entries(w))),
            w2,
        ),
    }
}

/// The messages a task publishes when run, in composition order: a
/// chain publishes its first part's messages before its second part's.
pub open spec fn task_emits<M>(t: Task<M>) -> Seq<M>
    decreases t,
{
    match t {
        Task::Nothing => Seq::empty(),
        Task::Message(m) => seq![m],
        Task::Operate(_) => Seq::empty(),
        Task::Chain(a, b) => task_emits(*a) + task_emits(*b),
    }
}

/// The focus operations a task runs, in composition order.
pub open spec fn task_ops<M>(t: Task<M>) -> Seq<Operation>
    decreases t,
{
    match t {
        Task::Nothing => Seq::empty(),
        Task::Message(_) => Seq::empty(),
        Task::Operate(op) => seq![op],
        Task::Chain(a, b) => task_ops(*a) + task_ops(*b),
    }
}

/// Drives one task against a tree: runs its steps in their declared
/// order, appending published messages to `out`, and returns the tree
/// the task leaves behind together with the trace of trees its
/// operations stepped through. The trace pins the semantics: the
/// task's operations ran one after the other, each against the tree the
/// previous one left behind, starting from `w` and ending at the
/// returned tree, while exactly the task's messages were published, in
/// order.
pub fn run_task<M: Copy>(t: &Task<M>, w: Widget<M>, out: &mut Vec<M>) -> (r: (
    Widget<M>,
    Ghost<Seq<Widget<M>>>,
))
    requires
        tree_wf(w),
    ensures
        tree_wf(r.0),
        final(out)@ == old(out)@ + task_emits(*t),
        r.1@.len() == task_ops(*t).len() + 1,
        r.1@[0] == w,
        r.1@[task_ops(*t).len() as int] == r.0,
        forall|i: int|
            0 <= i < task_ops(*t).len() ==> spec_op_ran(
                task_ops(*t)[i],
                #[trigger] r.1@[i],
                r.1@[i + 1],
            ),
    decreases *t,
{
    match t {
        Task::Nothing => {
            let ghost tr = seq![w];
            proof {
                assert(out@ =~= out@ + task_emits(*t));
            }
            (w, Ghost(tr))
        }
        Task::Message(m) => {
            out.push(*m);
            let ghost tr = seq![w];
            proof {
                assert(out@ =~= old(out)@ + task_emits(*t));
            }
            (w, Ghost(tr))
        }
        Task::Operate(op) => {
            let (w2, _found) = run(*op, w);
            let ghost tr = seq![w, w2];
            proof {
                assert(out@ =~= out@ + task_emits(*t));
                assert(task_ops(*t) =~= seq![*op]);
            }
            (w2, Ghost(tr))
        }
        Task::Chain(a, b) => {
            let (mid, ghost_ta) = run_task(&*a, w, out);
            let (r, ghost_tb) = run_task(&*b, mid, out);
            let ghost ta = ghost_ta@;
            let ghost tb = ghost_tb@;
            let ghost trees = ta + tb.drop_first();
            let ghost na = task_ops(*t->Chain_0).len() as int;
            let ghost nb = task_ops(*t->Chain_1).len() as int;
            proof {
                assert(task_emits(*t) == task_emits(*t->Chain_0) + task_emits(*t->Chain_1));
                assert(out@ =~= old(out)@ + task_emits(*t));
                assert(task_ops(*t) == task_ops(*t->Chain_0) + task_ops(*t->Chain_1));
                assert(trees.len() == na + nb + 1);
                assert(trees[0] == w);
                assert(trees[na + nb] == r) by {
                    if nb == 0 {
                        assert(trees[na] == ta[na]);
                    } else {
                        assert(trees[na + nb] == tb.drop_first()[nb - 1]);
                        assert(tb.drop_first()[nb - 1] == tb[nb as int]);
                    }
                }
                assert forall|i: int| 0 <= i < na + nb implies spec_op_ran(
                    task_ops(*t)[i],
                    #[trigger] trees[i],
                    trees[i + 1],
                ) by {
                    if i < na {
                        assert(task_ops(*t)[i] == task_ops(*t->Chain_0)[i]);
                        assert(trees[i] == ta[i]);
                        assert(trees[i + 1] == ta[i + 1]);
                    } else {
                        let j = i - na;
                        assert(task_ops(*t)[i] == task_ops(*t->Chain_1)[j]);
                        if j == 0 {
                            assert(trees[i] == ta[na]);
                            assert(ta[na] == tb[0]);
                        } else {
                            assert(trees[i] == tb.drop_first()[j - 1]);
                            assert(tb.drop_first()[j - 1] == tb[j]);
                        }
                        assert(trees[i + 1] == tb.drop_first()[j]);
                        assert(tb.drop_first()[j] == tb[j + 1]);
                        assert(spec_op_ran(task_ops(*t->Chain_1)[j], tb[j], tb[j + 1]));
                    }
                }
            }
            (r, Ghost(trees))
        }
    }
}

/// A composed focus chain: run the focus move, then find which widget
/// ended up focused, then hand that identity to a continuation.
/// Composing the chain does nothing; only [`run_focus_chain`] acts.
pub struct FocusChain {
    /// The focus move the chain starts with.
    pub op: Operation,
}

/// Composes a task that focuses the next focusable widget and then
/// feeds the identity of the widget that ended up focused to a
/// continuation. Nothing runs until a runtime drives the chain.
pub fn focus_next() -> (c: FocusChain)
    ensures
        c.op == Operation::FocusNext,
{
    FocusChain { op: Operation::FocusNext }
}

/// Composes a task that focuses the previous focusable widget and then
/// feeds the identity of the widget that ended up focused to a
/// continuation. Nothing runs until a runtime drives the chain.
pub fn focus_previous() -> (c: FocusChain)
    ensures
        c.op == Operation::FocusPrevious,
{
    FocusChain { op: Operation::FocusPrevious }
}

/// Drives a composed focus chain: first the focus move runs to
/// completion, then `FindFocused` runs on the tree the move left
/// behind, and the continuation receives exactly that result, producing
/// the follow-up task for the runtime to drive next.
pub fn run_focus_chain<M, F: Fn(Option<Identity>) -> Task<M>>(
    c: &FocusChain,
    w: Widget<M>,
    f: &F,
) -> (r: (Widget<M>, Task<M>))
    requires
        tree_wf(w),
        !(c.op is FindFocused),
        forall|x: Option<Identity>| #[trigger] f.requires((x,)),
    ensures
        tree_wf(r.0),
        spec_op_ran(c.op, w, r.0),
        f.ensures((spec_found(focus_entries(r.0)),), r.1),
{
    let (w2, _none) = run(c.op, w);
    let (w3, found) = run(Operation::FindFocused, w2);
    let follow = f(found);
    (w3, follow)
}

/// Maps the focus-traversal key to the operation it requests: Tab moves
/// focus forward, shift-Tab moves it backward, and no other key
/// requests an operation.
pub fn key_operation(key: Key, shift: bool) -> (r: Option<Operation>)
    ensures
        r == (if key is Tab {
            if shift {
                Option::Some(Operation::FocusPrevious)
            } else {
                Option::Some(Operation::FocusNext)
            }
        } else {
            Option::<Operation>::None
        }),
{
    match key {
        Key::Tab => {
            if shift {
                Option::Some(Operation::FocusPrevious)
            } else {
                Option::Some(Operation::FocusNext)
            }
        }
        _ => Option::None,
    }
}


/// A focus move preserves the tree's structural invariant.
pub proof fn lemma_focus_applied_preserves_wf<M>(
    w: Widget<M>,
    k: int,
    target: Option<int>,
    w2: Widget<M>,
)
    requires
        tree_wf(w),
        spec_focus_applied(w, k, target, w2),
    ensures
        tree_wf(w2),
    decreases w,
{
    match w {
        Widget::Button(b) => {
            lemma_focus_applied_preserves_wf(*b.content, k + 1, target, *w2->Button_0.content);
        }
        Widget::MouseArea(a) => {
            lemma_focus_applied_preserves_wf(*a.child, k, target, *w2->MouseArea_0.child);
        }
        Widget::Row(cs) => {
            lemma_focus_applied_preserves_wf_seq(cs@, k, target, w2->Row_0@);
        }
        Widget::Column(cs) => {
            lemma_focus_applied_preserves_wf_seq(cs@, k, target, w2->Column_0@);
        }
        _ => {}
    }
}

/// The forest version of [`lemma_focus_applied_preserves_wf`].
proof fn lemma_focus_applied_preserves_wf_seq<M>(
    ws: Seq<Widget<M>>,
    k: int,
    target: Option<int>,
    ws2: Seq<Widget<M>>,
)
    requires
        tree_wf_seq(ws),
        spec_focus_applied_seq(ws, k, target, ws2),
    ensures
        tree_wf_seq(ws2),
    decreases ws,
{
    if ws.len() > 0 {
        lemma_focus_applied_preserves_wf(ws[0], k, target, ws2[0]);
        lemma_focus_applied_preserves_wf_seq(
            ws.drop_first(),
            k + focus_entries(ws[0]).len(),
            target,
            ws2.drop_first(),
        );
    }
}

/// A focus move never touches the tree's structure: inert content stays
/// inert.
proof fn lemma_focus_applied_preserves_inert<M>(
    w: Widget<M>,
    k: int,
    target: Option<int>,
    w2: Widget<M>,
)
    requires
        inert(w),
        spec_focus_applied(w, k, target, w2),
    ensures
        inert(w2),
    decreases w,
{
    match w {
        Widget::Row(cs) => {
            lemma_focus_applied_preserves_inert_seq(cs@, k, target, w2->Row_0@);
        }
        Widget::Column(cs) => {
            lemma_focus_applied_preserves_inert_seq(cs@, k, target, w2->Column_0@);
        }
        _ => {}
    }
}

/// The forest version of [`lemma_focus_applied_preserves_inert`].
proof fn lemma_focus_applied_preserves_inert_seq<M>(
    ws: Seq<Widget<M>>,
    k: int,
    target: Option<int>,
    ws2: Seq<Widget<M>>,
)
    requires
        inert_seq(ws),
        spec_focus_applied_seq(ws, k, target, ws2),
    ensures
        inert_seq(ws2),
    decreases ws,
{
    if ws.len() > 0 {
        lemma_focus_applied_preserves_inert(ws[0], k, target, ws2[0]);
        lemma_focus_applied_preserves_inert_seq(
            ws.drop_first(),
            k + focus_entries(ws[0]).len(),
            target,
            ws2.drop_first(),
        );
    }
}

/// A focus move preserves passive button contents.
pub proof fn lemma_focus_applied_preserves_passive<M>(
    w: Widget<M>,
    k: int,
    target: Option<int>,
    w2: Widget<M>,
)
    requires
        contents_passive(w),
        spec_focus_applied(w, k, target, w2),
    ensures
        contents_passive(w2),
    decreases w,
{
    match w {
        Widget::Button(b) => {
            lemma_focus_applied_preserves_inert(*b.content, k + 1, target, *w2->Button_0.content);
        }
        Widget::MouseArea(a) => {
            lemma_focus_applied_preserves_passive(*a.child, k, target, *w2->MouseArea_0.child);
        }
        Widget::Row(cs) => {
            lemma_focus_applied_preserves_passive_seq(cs@, k, target, w2->Row_0@);
        }
        Widget::Column(cs) => {
            lemma_focus_applied_preserves_passive_seq(cs@, k, target, w2->Column_0@);
        }
        _ => {}
    }
}

/// The forest version of [`lemma_focus_applied_preserves_passive`].
proof fn lemma_focus_applied_preserves_passive_seq<M>(
    ws: Seq<Widget<M>>,
    k: int,
    target: Option<int>,
    ws2: Seq<Widget<M>>,
)
    requires
        contents_passive_seq(ws),
        spec_focus_applied_seq(ws, k, target, ws2),
    ensures
        contents_passive_seq(ws2),
    decreases ws,
{
    if ws.len() > 0 {
        lemma_focus_applied_preserves_passive(ws[0], k, target, ws2[0]);
        lemma_focus_applied_preserves_passive_seq(
            ws.drop_first(),
            k + focus_entries(ws[0]).len(),
            target,
            ws2.drop_first(),
        );
    }
}

/// One step of a session: an input event dispatched to the whole tree,
/// or a focus operation run against it.
pub enum SessionStep {
    /// An input event with the pointer state it arrived with.
    Input(Event, Cursor),
    /// A tree-wide focus operation.
    Operate(Operation),
}

/// Relates a tree to the tree one session step leaves behind.
pub open spec fn spec_session_step<M>(w: Widget<M>, step: SessionStep, w2: Widget<M>) -> bool {
    match step {
        SessionStep::Input(ev, cur) => spec_dispatched(w, ev, cur, w2),
        SessionStep::Operate(op) => spec_op_ran(op, w, w2),
    }
}

/// Whether a session step keeps the focusable widgets it presses at most
/// one deep: for a pointer press, at most one focusable widget of the
/// tree it hits lies under the pointer. Other steps ask nothing.
pub open spec fn spec_step_hits_at_most_one<M>(w: Widget<M>, step: SessionStep) -> bool {
    match step {
        SessionStep::Input(ev, cur) => ev is PointerPressed ==> spec_at_most_one_hit(
            focus_entries(w),
            cur,
        ),
        SessionStep::Operate(_) => true,
    }
}

/// The single-focus invariant, over a whole session: starting from a
/// well-formed tree with passive button contents, at most one focused
/// widget, and every focused widget accepting focus, any interleaving of
/// input events and focus operations — each press hitting at most one
/// focusable widget — leaves the tree, after every step, with at most
/// one focused widget.
pub proof fn lemma_session_single_focus<M>(
    w0: Widget<M>,
    steps: Seq<SessionStep>,
    trace: Seq<Widget<M>>,
)
    requires
        tree_wf(w0),
        contents_passive(w0),
        spec_at_most_one_focused(flags_of(focus_entries(w0))),
        spec_focused_are_enabled(flags_of(focus_entries(w0))),
        trace.len() == steps.len() + 1,
        trace[0] == w0,
        forall|i: int|
            0 <= i < steps.len() ==> spec_session_step(#[trigger] trace[i], steps[i], trace[i + 1]),
        forall|i: int|
            0 <= i < steps.len() ==> spec_step_hits_at_most_one(#[trigger] trace[i], steps[i]),
    ensures
        forall|i: int|
            0 <= i < trace.len() ==> spec_at_most_one_focused(
                flags_of(focus_entries(#[trigger] trace[i])),
            ),
        forall|i: int| 0 <= i < trace.len() ==> tree_wf(#[trigger] trace[i]),
    decreases steps.len(),
{
    if steps.len() > 0 {
        let w1 = trace[1];
        match steps[0] {
            SessionStep::Input(ev, cur) => {
                lemma_dispatch_single_focus(w0, ev, cur, w1);
                lemma_dispatched_preserves_wf(w0, ev, cur, w1);
                lemma_dispatched_preserves_passive(w0, ev, cur, w1);
            }
            SessionStep::Operate(op) => {
                match op {
                    Operation::FindFocused => {}
                    Operation::FocusNext => {
                        let t = spec_next_target(flags_of(focus_entries(w0)));
                        lemma_operation_single_focus(w0, t, w1);
                        lemma_focus_applied_preserves_wf(w0, 0, t, w1);
                        lemma_focus_applied_preserves_passive(w0, 0, t, w1);
                    }
                    Operation::FocusPrevious => {
                        let t = spec_prev_target(flags_of(focus_entries(w0)));
                        lemma_operation_single_focus(w0, t, w1);
                        lemma_focus_applied_preserves_wf(w0, 0, t, w1);
                        lemma_focus_applied_preserves_passive(w0, 0, t, w1);
                    }
                }
            }
        }
        assert(forall|i: int|
            0 <= i < steps.drop_first().len() ==> spec_session_step(
                #[trigger] trace.drop_first()[i],
                steps.drop_first()[i],
                trace.drop_first()[i + 1],
            ) && spec_step_hits_at_most_one(trace.drop_first()[i], steps.drop_first()[i]));
        lemma_session_single_focus(w1, steps.drop_first(), trace.drop_first());
        assert(forall|i: int|
            1 <= i < trace.len() ==> trace[i] == trace.drop_first()[i - 1]);
    }
}

} // verus!
