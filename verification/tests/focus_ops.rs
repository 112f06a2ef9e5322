use sweeten::event::Event;
use sweeten::geometry::{Cursor, Point, Rect};
use sweeten::identity::Identity;
use sweeten::widget::button::{State, Status};
use sweeten::widget::operation::{key_operation, run, Focusable, Operation};
use sweeten::widget::dispatch;
use sweeten::widget::Widget;
use sweeten::helpers::focusable_button;
use sweeten::helpers::focusable_text_input;
use sweeten::helpers::row;

#[derive(Clone, Copy, PartialEq, Eq, Debug)]
enum Msg {
    Increment,
    Decrement,
    Reset,
}

fn rect(x: i32, y: i32, width: u32, height: u32) -> Rect {
    Rect { x, y, width, height }
}

fn named(name: &str) -> Identity {
    Identity::from_name(name.to_string())
}

fn button(label: &str, msg: Option<Msg>, x: i32) -> Widget<Msg> {
    let b = focusable_button(Widget::Text(label.to_string()))
        .on_press_maybe(msg)
        .id(named(label))
        .bounds(rect(x, 0, 10, 10));
    Widget::Button(b)
}

fn three_buttons() -> Widget<Msg> {
    sweeten::helpers::column(vec![
        button("increment", Some(Msg::Increment), 0),
        button("decrement", Some(Msg::Decrement), 20),
        button("reset", None, 40),
    ])
}

#[test]
fn focus_next_skips_disabled_and_wraps() {
    let tree = three_buttons();
    let (tree, _) = run(Operation::FocusNext, tree);
    let (tree, found) = run(Operation::FindFocused, tree);
    assert_eq!(found, Some(named("increment")));

    let (tree, _) = run(Operation::FocusNext, tree);
    let (tree, found) = run(Operation::FindFocused, tree);
    assert_eq!(found, Some(named("decrement")));

    // The disabled reset button is skipped: focus wraps to increment.
    let (tree, _) = run(Operation::FocusNext, tree);
    let (_, found) = run(Operation::FindFocused, tree);
    assert_eq!(found, Some(named("increment")));
}

#[test]
fn focus_previous_wraps_to_last_enabled() {
    let tree = three_buttons();
    // Nothing focused: FocusPrevious focuses the last enabled widget.
    let (tree, _) = run(Operation::FocusPrevious, tree);
    let (tree, found) = run(Operation::FindFocused, tree);
    assert_eq!(found, Some(named("decrement")));

    let (tree, _) = run(Operation::FocusPrevious, tree);
    let (tree, found) = run(Operation::FindFocused, tree);
    assert_eq!(found, Some(named("increment")));

    let (tree, _) = run(Operation::FocusPrevious, tree);
    let (_, found) = run(Operation::FindFocused, tree);
    assert_eq!(found, Some(named("decrement")));
}

#[test]
fn next_then_previous_returns_focus() {
    let tree = three_buttons();
    let (tree, _) = run(Operation::FocusNext, tree);
    let (tree, found) = run(Operation::FindFocused, tree);
    assert_eq!(found, Some(named("increment")));

    let (tree, _) = run(Operation::FocusNext, tree);
    let (tree, _) = run(Operation::FocusPrevious, tree);
    let (_, found) = run(Operation::FindFocused, tree);
    assert_eq!(found, Some(named("increment")));
}

#[test]
fn find_focused_on_fresh_tree_is_none() {
    let tree = three_buttons();
    let (_, found) = run(Operation::FindFocused, tree);
    assert_eq!(found, None);
}

#[test]
fn operations_on_empty_tree_are_noops() {
    let tree: Widget<Msg> = row(vec![]);
    let (tree, found) = run(Operation::FocusNext, tree);
    assert_eq!(found, None);
    let (tree, found) = run(Operation::FocusPrevious, tree);
    assert_eq!(found, None);
    let (_, found) = run(Operation::FindFocused, tree);
    assert_eq!(found, None);
}

#[test]
fn single_focusable_refocuses_itself() {
    let tree = sweeten::helpers::column(vec![button("only", Some(Msg::Increment), 0)]);
    let (tree, _) = run(Operation::FocusNext, tree);
    let (tree, found) = run(Operation::FindFocused, tree);
    assert_eq!(found, Some(named("only")));
    // FocusNext again: unfocus then immediately refocus the same widget.
    let (tree, _) = run(Operation::FocusNext, tree);
    let (tree, found) = run(Operation::FindFocused, tree);
    assert_eq!(found, Some(named("only")));
    let (tree, _) = run(Operation::FocusPrevious, tree);
    let (_, found) = run(Operation::FindFocused, tree);
    assert_eq!(found, Some(named("only")));
}

#[test]
fn tab_cycles_two_text_fields() {
    let field_a = Widget::TextInput(
        focusable_text_input::<Msg>("a".to_string(), String::new())
            .id(named("field_a"))
            .bounds(rect(0, 0, 30, 10)),
    );
    let field_b = Widget::TextInput(
        focusable_text_input::<Msg>("b".to_string(), String::new())
            .id(named("field_b"))
            .bounds(rect(0, 20, 30, 10)),
    );
    let tree = sweeten::helpers::column(vec![field_a, field_b]);

    let tab = key_operation(sweeten::event::Key::Tab, false).unwrap();
    assert_eq!(tab, Operation::FocusNext);
    let shift_tab = key_operation(sweeten::event::Key::Tab, true).unwrap();
    assert_eq!(shift_tab, Operation::FocusPrevious);
    assert_eq!(key_operation(sweeten::event::Key::Enter, false), None);

    // Tab cycles A -> B -> A.
    let (tree, _) = run(tab, tree);
    let (tree, found) = run(Operation::FindFocused, tree);
    assert_eq!(found, Some(named("field_a")));
    let (tree, _) = run(tab, tree);
    let (tree, found) = run(Operation::FindFocused, tree);
    assert_eq!(found, Some(named("field_b")));
    let (tree, _) = run(tab, tree);
    let (tree, found) = run(Operation::FindFocused, tree);
    assert_eq!(found, Some(named("field_a")));

    // Shift-Tab reverses: A -> B.
    let (tree, _) = run(shift_tab, tree);
    let (_, found) = run(Operation::FindFocused, tree);
    assert_eq!(found, Some(named("field_b")));
}

#[test]
fn focus_refused_on_disabled_state() {
    let mut s = State {
        is_focused: false,
        was_focused: false,
        status: Status::Disabled,
    };
    s.focus();
    assert!(!s.is_focused());

    let mut active = State {
        is_focused: false,
        was_focused: false,
        status: Status::Active,
    };
    active.focus();
    assert!(active.is_focused());
    active.unfocus();
    assert!(!active.is_focused());
}

#[test]
fn at_most_one_focused_after_operations() {
    fn count_focused(w: &Widget<Msg>) -> usize {
        match w {
            Widget::Button(b) => {
                (if b.state.is_focused { 1 } else { 0 }) + count_focused(&b.content)
            }
            Widget::TextInput(t) => {
                if t.state.is_focused {
                    1
                } else {
                    0
                }
            }
            Widget::MouseArea(a) => count_focused(&a.child),
            Widget::Row(cs) | Widget::Column(cs) => cs.iter().map(count_focused).sum(),
            _ => 0,
        }
    }
    let mut tree = three_buttons();
    for op in [
        Operation::FocusNext,
        Operation::FocusNext,
        Operation::FocusPrevious,
        Operation::FocusNext,
        Operation::FocusPrevious,
        Operation::FocusPrevious,
    ] {
        let (next, _) = run(op, tree);
        tree = next;
        assert!(count_focused(&tree) <= 1);
    }
}

#[test]
fn text_field_focus_and_blur_messages() {
    #[derive(Clone, Copy, PartialEq, Eq, Debug)]
    enum Note {
        Focused,
        Blurred,
    }
    let field = focusable_text_input::<Note>("a".to_string(), String::new())
        .on_focus(Note::Focused)
        .on_blur(Note::Blurred)
        .bounds(rect(0, 0, 30, 10));
    let mut out: Vec<Note> = Vec::new();

    let inside = Cursor::Available(Point { x: 5, y: 5 });
    let outside = Cursor::Available(Point { x: 100, y: 100 });

    let (tree, captured) =
        dispatch(Widget::TextInput(field), &Event::PointerPressed, inside, &mut out);
    assert!(captured);
    assert_eq!(out, vec![Note::Focused]);
    match &tree {
        Widget::TextInput(t) => assert!(t.state.is_focused),
        _ => panic!("expected a text input"),
    }

    let (tree, captured) = dispatch(tree, &Event::PointerPressed, outside, &mut out);
    assert!(!captured);
    assert_eq!(out, vec![Note::Focused, Note::Blurred]);
    match &tree {
        Widget::TextInput(t) => assert!(!t.state.is_focused),
        _ => panic!("expected a text input"),
    }
}
