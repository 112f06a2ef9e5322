use sweeten::event::Event;
use sweeten::geometry::{Cursor, Point, Rect};
use sweeten::identity::{IdGen, Identity};
use sweeten::widget::dispatch;
use sweeten::widget::operation::{run_focus_chain, run_task, Operation, Task};
use sweeten::widget::Widget;
use sweeten::helpers::focusable_button;
use sweeten::helpers::mouse_area;
use sweeten::helpers::pick_list;

#[derive(Clone, Copy, PartialEq, Eq, Debug)]
enum Msg {
    AreaPressed,
    AreaReleased,
    ButtonPressed,
    ButtonFocus,
    Start,
    Done,
    FoundSomething,
    FoundNothing,
}

fn rect(x: i32, y: i32, width: u32, height: u32) -> Rect {
    Rect { x, y, width, height }
}

fn at(x: i32, y: i32) -> Cursor {
    Cursor::Available(Point { x, y })
}

#[test]
fn rect_contains_half_open_edges() {
    let r = rect(0, 0, 10, 10);
    assert!(r.contains(Point { x: 0, y: 0 }));
    assert!(r.contains(Point { x: 9, y: 9 }));
    assert!(!r.contains(Point { x: 10, y: 0 }));
    assert!(!r.contains(Point { x: 0, y: 10 }));
    assert!(!r.contains(Point { x: -1, y: 0 }));
    assert!(!Cursor::Unavailable.is_over(&r));
    assert!(at(3, 3).is_over(&r));
}

#[test]
fn identities_compare_by_name_and_counter() {
    assert_eq!(
        Identity::from_name("a".to_string()),
        Identity::from_name("a".to_string())
    );
    assert_ne!(
        Identity::from_name("a".to_string()),
        Identity::from_name("b".to_string())
    );
    let mut generator = IdGen::new();
    let first = generator.fresh();
    let second = generator.fresh();
    assert_ne!(first, second);
    assert!(first.same(&first));
    assert!(!first.same(&second));
    assert!(!first.same(&Identity::from_name("a".to_string())));
    assert_eq!(first.duplicate(), first);
}

#[test]
fn pick_list_refuses_disabled_options() {
    let options = vec!["one".to_string(), "two".to_string(), "three".to_string()];
    let mut p = pick_list(options, None).disabled(vec![false, true, false]);
    assert_eq!(p.selected, None);
    assert!(p.select(0));
    assert_eq!(p.selected, Some(0));
    assert!(!p.select(1));
    assert_eq!(p.selected, Some(0));
    assert!(p.select(2));
    assert_eq!(p.selected, Some(2));
    assert!(!p.select(7));
    assert_eq!(p.selected, Some(2));
}

#[test]
fn pick_list_drops_invalid_selection() {
    let options = vec!["one".to_string(), "two".to_string()];
    let p = pick_list(options.clone(), Some(5));
    assert_eq!(p.selected, None);
    // A selection the mask disables is dropped too.
    let p = pick_list(options, Some(1)).disabled(vec![false, true]);
    assert_eq!(p.selected, None);
}

#[test]
fn mouse_area_captures_press_and_release() {
    let area = mouse_area(Widget::Text("target".to_string()))
        .on_press(Msg::AreaPressed)
        .on_release(Msg::AreaReleased)
        .bounds(rect(0, 0, 10, 10));
    let mut out: Vec<Msg> = Vec::new();

    let (tree, captured) = dispatch(
        Widget::MouseArea(area),
        &Event::PointerPressed,
        at(5, 5),
        &mut out,
    );
    assert!(captured);
    assert_eq!(out, vec![Msg::AreaPressed]);

    let (tree, captured) = dispatch(tree, &Event::PointerReleased, at(5, 5), &mut out);
    assert!(captured);
    assert_eq!(out, vec![Msg::AreaPressed, Msg::AreaReleased]);

    let (_, captured) = dispatch(tree, &Event::PointerPressed, at(50, 50), &mut out);
    assert!(!captured);
    assert_eq!(out, vec![Msg::AreaPressed, Msg::AreaReleased]);
}

#[test]
fn capturing_content_shields_the_button() {
    // The button's content captures the press, so the button itself
    // must not react: no focus gained, no message of its own.
    let inner = Widget::MouseArea(
        mouse_area(Widget::Text("inner".to_string()))
            .on_press(Msg::AreaPressed)
            .bounds(rect(0, 0, 10, 10)),
    );
    let button = focusable_button(inner)
        .on_press(Msg::ButtonPressed)
        .on_focus(Msg::ButtonFocus)
        .bounds(rect(0, 0, 10, 10));
    let mut out: Vec<Msg> = Vec::new();
    let (tree, captured) = dispatch(
        Widget::Button(button),
        &Event::PointerPressed,
        at(5, 5),
        &mut out,
    );
    assert!(captured);
    assert_eq!(out, vec![Msg::AreaPressed]);
    match tree {
        Widget::Button(b) => assert!(!b.state.is_focused),
        _ => panic!("expected a button"),
    }
}

#[test]
fn tasks_run_in_composition_order() {
    let button = focusable_button(Widget::Text("b".to_string()))
        .on_press(Msg::ButtonPressed)
        .on_focus(Msg::ButtonFocus)
        .id(Identity::from_name("b".to_string()))
        .bounds(rect(0, 0, 10, 10));
    let tree = sweeten::helpers::column(vec![Widget::Button(button)]);

    let task = Task::Chain(
        Box::new(Task::Message(Msg::Start)),
        Box::new(Task::Chain(
            Box::new(Task::Operate(Operation::FocusNext)),
            Box::new(Task::Message(Msg::Done)),
        )),
    );
    let mut out: Vec<Msg> = Vec::new();
    let (tree, _trace) = run_task(&task, tree, &mut out);
    assert_eq!(out, vec![Msg::Start, Msg::Done]);
    let (_, found) = sweeten::widget::operation::run(Operation::FindFocused, tree);
    assert_eq!(found, Some(Identity::from_name("b".to_string())));
}

#[test]
fn focus_chain_feeds_found_identity_to_continuation() {
    let button = focusable_button(Widget::Text("b".to_string()))
        .on_press(Msg::ButtonPressed)
        .id(Identity::from_name("b".to_string()))
        .bounds(rect(0, 0, 10, 10));
    let tree = sweeten::helpers::column(vec![Widget::Button(button)]);

    let chain = sweeten::widget::operation::focus_next();
    let continuation = |found: Option<Identity>| -> Task<Msg> {
        match found {
            Some(_) => Task::Message(Msg::FoundSomething),
            None => Task::Message(Msg::FoundNothing),
        }
    };
    let (tree, follow) = run_focus_chain(&chain, tree, &continuation);
    let mut out: Vec<Msg> = Vec::new();
    let (_, _trace) = run_task(&follow, tree, &mut out);
    assert_eq!(out, vec![Msg::FoundSomething]);

    // On a tree with nothing focusable the chain reports nothing.
    let empty: Widget<Msg> = sweeten::helpers::column(vec![]);
    let chain = sweeten::widget::operation::focus_previous();
    let (empty, follow) = run_focus_chain(&chain, empty, &continuation);
    let mut out: Vec<Msg> = Vec::new();
    let (_, _trace) = run_task(&follow, empty, &mut out);
    assert_eq!(out, vec![Msg::FoundNothing]);
}
