use sweeten::event::{Event, Key};
use sweeten::focusable_button;
use sweeten::geometry::{Cursor, Point, Rect};
use sweeten::widget::button::{Button, Status};
use sweeten::widget::dispatch;
use sweeten::widget::Widget;

#[derive(Clone, Copy, PartialEq, Eq, Debug)]
enum Msg {
    Pressed,
    Focus,
    Blur,
}

fn rect(x: i32, y: i32, width: u32, height: u32) -> Rect {
    Rect { x, y, width, height }
}

fn inside() -> Cursor {
    Cursor::Available(Point { x: 5, y: 5 })
}

fn outside() -> Cursor {
    Cursor::Available(Point { x: 50, y: 50 })
}

fn pressable() -> Button<Msg> {
    focusable_button(Widget::Text("ok".to_string()))
        .on_press(Msg::Pressed)
        .on_focus(Msg::Focus)
        .on_blur(Msg::Blur)
        .bounds(rect(0, 0, 10, 10))
}

#[test]
fn press_and_release_inside_publishes_once() {
    let mut out: Vec<Msg> = Vec::new();
    let tree: Widget<Msg> = Widget::Button(pressable());

    let (tree, captured) = dispatch(tree, &Event::PointerPressed, inside(), &mut out);
    assert!(captured);
    assert_eq!(out, vec![Msg::Focus]);

    let (tree, captured) = dispatch(tree, &Event::PointerReleased, inside(), &mut out);
    assert!(captured);
    assert_eq!(out, vec![Msg::Focus, Msg::Pressed]);

    match tree {
        Widget::Button(b) => {
            assert_eq!(b.state.status, Status::Active);
            assert!(b.state.is_focused);
        }
        _ => panic!("expected a button"),
    }
}

#[test]
fn press_outside_blurs_focused_button() {
    let mut b = pressable();
    b.state.is_focused = true;
    b.state.was_focused = true;
    let mut out: Vec<Msg> = Vec::new();

    let (tree, captured) = dispatch(Widget::Button(b), &Event::PointerPressed, outside(), &mut out);
    assert!(!captured);
    assert_eq!(out, vec![Msg::Blur]);
    match tree {
        Widget::Button(b) => {
            assert!(!b.state.is_focused);
            assert!(!b.state.was_focused);
        }
        _ => panic!("expected a button"),
    }
}

#[test]
fn release_outside_captures_without_publishing() {
    let mut out: Vec<Msg> = Vec::new();
    let tree: Widget<Msg> = Widget::Button(pressable());
    let (tree, _) = dispatch(tree, &Event::PointerPressed, inside(), &mut out);
    out.clear();

    let (tree, captured) = dispatch(tree, &Event::PointerReleased, outside(), &mut out);
    assert!(captured);
    assert_eq!(out, Vec::<Msg>::new());
    match tree {
        Widget::Button(b) => assert_eq!(b.state.status, Status::Active),
        _ => panic!("expected a button"),
    }
}

#[test]
fn keyboard_activates_focused_button() {
    let mut b = pressable();
    b.state.is_focused = true;
    b.state.was_focused = true;
    let mut out: Vec<Msg> = Vec::new();

    let ev = Event::KeyPressed { key: Key::Enter, shift: false };
    let (tree, captured) = dispatch(Widget::Button(b), &ev, outside(), &mut out);
    assert!(captured);
    assert_eq!(out, vec![Msg::Pressed]);
    match tree {
        Widget::Button(b) => assert_eq!(b.state.status, Status::Pressed),
        _ => panic!("expected a button"),
    }
}

#[test]
fn keyboard_ignored_when_unfocused_or_wrong_key() {
    let mut out: Vec<Msg> = Vec::new();
    let tree: Widget<Msg> = Widget::Button(pressable());
    let ev = Event::KeyPressed { key: Key::Enter, shift: false };
    let (tree, captured) = dispatch(tree, &ev, outside(), &mut out);
    assert!(!captured);
    assert!(out.is_empty());

    // Focused, but a key that does not activate.
    let mut b = pressable();
    b.state.is_focused = true;
    b.state.was_focused = true;
    drop(tree);
    let ev = Event::KeyPressed { key: Key::Other, shift: false };
    let (_, captured) = dispatch(Widget::Button(b), &ev, outside(), &mut out);
    assert!(!captured);
    assert!(out.is_empty());
}

#[test]
fn touch_cancel_resets_press() {
    let mut out: Vec<Msg> = Vec::new();
    let tree: Widget<Msg> = Widget::Button(pressable());
    let (tree, _) = dispatch(tree, &Event::PointerPressed, inside(), &mut out);
    out.clear();

    let (tree, captured) = dispatch(tree, &Event::PointerLost, inside(), &mut out);
    assert!(!captured);
    assert!(out.is_empty());
    match tree {
        Widget::Button(b) => assert_eq!(b.state.status, Status::Active),
        _ => panic!("expected a button"),
    }
}

#[test]
fn disabled_button_ignores_press() {
    let b: Button<Msg> = focusable_button(Widget::Text("off".to_string()))
        .bounds(rect(0, 0, 10, 10));
    assert_eq!(b.state.status, Status::Disabled);
    let mut out: Vec<Msg> = Vec::new();
    let (tree, captured) = dispatch(Widget::Button(b), &Event::PointerPressed, inside(), &mut out);
    assert!(!captured);
    assert!(out.is_empty());
    match tree {
        Widget::Button(b) => {
            assert!(!b.state.is_focused);
            assert_eq!(b.state.status, Status::Disabled);
        }
        _ => panic!("expected a button"),
    }
}

#[test]
fn notifications_balance_over_a_session() {
    // Focus messages minus blur messages track the focus flag exactly.
    let mut out: Vec<Msg> = Vec::new();
    let tree: Widget<Msg> = Widget::Button(pressable());
    let (tree, _) = dispatch(tree, &Event::PointerPressed, inside(), &mut out);
    let (tree, _) = dispatch(tree, &Event::PointerReleased, inside(), &mut out);
    let (tree, _) = dispatch(tree, &Event::PointerPressed, outside(), &mut out);
    let (tree, _) = dispatch(tree, &Event::PointerPressed, inside(), &mut out);
    let (tree, _) = dispatch(tree, &Event::PointerReleased, outside(), &mut out);

    let focus_count = out.iter().filter(|m| **m == Msg::Focus).count();
    let blur_count = out.iter().filter(|m| **m == Msg::Blur).count();
    match tree {
        Widget::Button(b) => {
            assert!(b.state.is_focused);
            assert_eq!(focus_count as i64 - blur_count as i64, 1);
        }
        _ => panic!("expected a button"),
    }
}

#[test]
fn no_spurious_notifications_when_synced() {
    // A refocus of the already-focused widget must not emit duplicates.
    let mut b = pressable();
    b.state.is_focused = true;
    b.state.was_focused = true;
    let mut out: Vec<Msg> = Vec::new();
    let (_, captured) = dispatch(Widget::Button(b), &Event::Other, inside(), &mut out);
    assert!(!captured);
    assert!(out.is_empty());
}

#[test]
fn draw_status_reflects_state() {
    let b = pressable();
    assert_eq!(b.draw_status(outside()), Status::Active);
    assert_eq!(b.draw_status(inside()), Status::Hovered);

    let mut focused = pressable();
    focused.state.is_focused = true;
    assert_eq!(
        focused.draw_status(inside()),
        Status::Focused { is_hovered: true }
    );
    assert_eq!(
        focused.draw_status(outside()),
        Status::Focused { is_hovered: false }
    );

    let mut pressed = pressable();
    pressed.state.status = Status::Pressed;
    assert_eq!(pressed.draw_status(inside()), Status::Pressed);

    let disabled: Button<Msg> =
        focusable_button(Widget::Text("off".to_string())).bounds(rect(0, 0, 10, 10));
    assert_eq!(disabled.draw_status(inside()), Status::Disabled);
}
