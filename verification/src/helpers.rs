//! Helper functions to create widgets.

use vstd::prelude::*;

use crate::widget::button::Button;
use crate::widget::mouse_area::MouseArea;
use crate::widget::pick_list::PickList;
use crate::widget::text_input::TextInput;
use crate::widget::Widget;

verus! {

/// Creates a row with the given children.
///
/// Rows distribute their children horizontally.
pub fn row<M>(children: Vec<Widget<M>>) -> (w: Widget<M>)
    ensures
        w == Widget::Row(children),
{
    Widget::Row(children)
}

/// Creates a column with the given children.
///
/// Columns distribute their children vertically.
pub fn column<M>(children: Vec<Widget<M>>) -> (w: Widget<M>)
    ensures
        w == Widget::Column(children),
{
    Widget::Column(children)
}

/// Creates a new focusable [`Button`] with the given content.
///
/// The button supports focus and blur messages besides its press
/// message; until a press message is set it is disabled.
pub fn focusable_button<M>(content: Widget<M>) -> (b: Button<M>)
    ensures
        *b.content == content,
        b.on_press is None,
        b.on_focus is None,
        b.on_blur is None,
        b.id is None,
        b.state.is_focused == false,
        b.state.was_focused == false,
        b.wf(),
{
    Button::new(content)
}

/// Creates a new focusable [`TextInput`].
///
/// The field supports focus and blur messages.
pub fn focusable_text_input<M>(placeholder: String, value: String) -> (t: TextInput<M>)
    ensures
        t.placeholder == placeholder,
        t.value == value,
        t.on_focus is None,
        t.on_blur is None,
        t.id is None,
        t.state.is_focused == false,
        t.state.was_focused == false,
        t.wf(),
{
    TextInput::new(placeholder, value)
}

/// Creates a new [`PickList`] with the given options and selection.
///
/// Individual options can afterwards be disabled with
/// [`PickList::disabled`].
pub fn pick_list(options: Vec<String>, selected: Option<usize>) -> (p: PickList)
    ensures
        p.options == options,
        p.disabled@ == Seq::<bool>::empty(),
        p.selected == (match selected {
            Option::Some(i) => if i < options@.len() {
                Option::Some(i)
            } else {
                Option::<usize>::None
            },
            Option::None => Option::<usize>::None,
        }),
        p.wf(),
{
    PickList::new(options, selected)
}

/// Creates a new [`MouseArea`] for capturing mouse events over the given
/// widget.
pub fn mouse_area<M>(widget: Widget<M>) -> (a: MouseArea<M>)
    ensures
        *a.child == widget,
        a.on_press is None,
        a.on_release is None,
{
    MouseArea::new(widget)
}

} // verus!
