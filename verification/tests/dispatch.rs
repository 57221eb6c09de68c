use nuon::input::{Event, EventQueue, MouseButton};
use nuon::UpdateCtx;
use nuon::tree::Tree;
use nuon::widget::{Button, Element, Row};
use nuon::{LayoutCtx, ParentLayout};

fn press() -> Event {
    Event::MousePress { button: MouseButton::Left }
}

fn release() -> Event {
    Event::MouseRelease { button: MouseButton::Left }
}

fn moved(x: i64, y: i64) -> Event {
    Event::CursorMoved { x, y }
}

fn two_buttons() -> Element<i32> {
    // A at x 0..10 emits 1 on press and 2 on release; B at x 10..20 emits 3.
    Row::new()
        .push(Button::new().size(10, 10).on_press(1).on_release(2).build())
        .push(Button::new().size(10, 10).on_press(3).build())
        .build()
}

#[test]
fn dispatch_drains_the_queue_in_fifo_order() {
    let root = two_buttons();
    let mut tree = Tree::new_for(&root);
    let layout = root.layout(&tree, &ParentLayout { x: 0, y: 0, w: 100, h: 100 }, &LayoutCtx {});
    let mut q = EventQueue::new();
    q.push(moved(5, 5));
    q.push(press());
    q.push(release());
    q.push(moved(15, 5));
    q.push(press());
    assert_eq!(q.len(), 5);
    let mut messages: Vec<i32> = Vec::new();
    q.dispatch_events(&mut messages, &root, &mut tree, &layout);
    assert_eq!(messages, vec![1, 2, 3]);
    assert_eq!(q.len(), 0);
    // a second dispatch routes nothing: the queue was fully drained
    q.dispatch_events(&mut messages, &root, &mut tree, &layout);
    assert_eq!(messages, vec![1, 2, 3]);
}

#[test]
fn capture_stops_later_overlapping_sibling() {
    // A's box is [0,0,10,10]; B overlaps it with [0,0,20,20]; A is earlier
    // in traversal order, so a press at (5,5) is captured by A and B must
    // not also emit its press message.
    let root: Element<i32> = Element::stack(vec![
        Button::new().size(10, 10).on_press(1).build(),
        Button::new().size(20, 20).on_press(2).build(),
    ]);
    let mut tree = Tree::new_for(&root);
    let layout = root.layout(&tree, &ParentLayout { x: 0, y: 0, w: 100, h: 100 }, &LayoutCtx {});
    let mut q = EventQueue::new();
    q.push(moved(5, 5));
    q.push(press());
    let mut messages: Vec<i32> = Vec::new();
    q.dispatch_events(&mut messages, &root, &mut tree, &layout);
    assert_eq!(messages, vec![1]);
    assert!(tree.children[0].pressed);
    assert!(!tree.children[1].pressed);
}

#[test]
fn press_outside_every_box_captures_and_emits_nothing() {
    let root = two_buttons();
    let mut tree = Tree::new_for(&root);
    let layout = root.layout(&tree, &ParentLayout { x: 0, y: 0, w: 100, h: 100 }, &LayoutCtx {});
    let mut q = EventQueue::new();
    q.push(moved(50, 50));
    q.push(press());
    q.push(release());
    let mut messages: Vec<i32> = Vec::new();
    q.dispatch_events(&mut messages, &root, &mut tree, &layout);
    assert!(messages.is_empty());
    assert!(!tree.children[0].pressed);
    assert!(!tree.children[1].pressed);
}

#[test]
fn release_is_delivered_to_the_grabbed_button() {
    let root = two_buttons();
    let mut tree = Tree::new_for(&root);
    let layout = root.layout(&tree, &ParentLayout { x: 0, y: 0, w: 100, h: 100 }, &LayoutCtx {});
    let mut q = EventQueue::new();
    q.push(moved(5, 5));
    q.push(press());
    // cursor leaves the button before the release: the grab still ends
    q.push(moved(90, 90));
    q.push(release());
    let mut messages: Vec<i32> = Vec::new();
    q.dispatch_events(&mut messages, &root, &mut tree, &layout);
    assert_eq!(messages, vec![1, 2]);
    assert!(!tree.children[0].pressed);
}

#[test]
fn non_left_buttons_do_not_press() {
    let root = two_buttons();
    let mut tree = Tree::new_for(&root);
    let layout = root.layout(&tree, &ParentLayout { x: 0, y: 0, w: 100, h: 100 }, &LayoutCtx {});
    let mut q = EventQueue::new();
    q.push(moved(5, 5));
    q.push(Event::MousePress { button: MouseButton::Right });
    let mut messages: Vec<i32> = Vec::new();
    q.dispatch_events(&mut messages, &root, &mut tree, &layout);
    assert!(messages.is_empty());
}

#[test]
fn diff_preserves_state_positionally() {
    let root = two_buttons();
    let mut tree = Tree::new_for(&root);
    let layout = root.layout(&tree, &ParentLayout { x: 0, y: 0, w: 100, h: 100 }, &LayoutCtx {});
    let mut q = EventQueue::new();
    q.push(moved(5, 5));
    q.push(press());
    let mut messages: Vec<i32> = Vec::new();
    q.dispatch_events(&mut messages, &root, &mut tree, &layout);
    assert!(tree.children[0].pressed);

    // the host redeclares the same tree shape next frame: state survives
    let next = two_buttons();
    tree.diff(&next);
    assert!(tree.children[0].pressed);

    // a frame with one extra child: kept children stay, the new one is idle
    let wider: Element<i32> = Row::new()
        .push(Button::new().size(10, 10).on_press(1).on_release(2).build())
        .push(Button::new().size(10, 10).on_press(3).build())
        .push(Button::new().size(10, 10).on_press(4).build())
        .build();
    tree.diff(&wider);
    assert_eq!(tree.children.len(), 3);
    assert!(tree.children[0].pressed);
    assert!(!tree.children[2].pressed);

    // a frame with fewer children drops the removed state
    let narrow: Element<i32> = Row::new().push(Button::new().size(10, 10).build()).build();
    tree.diff(&narrow);
    assert_eq!(tree.children.len(), 1);
    assert!(tree.children[0].pressed);
}

struct CollectingRenderer {
    quads: Vec<(i64, i64, i64, i64)>,
}

impl nuon::widget::Renderer for CollectingRenderer {
    fn draw_quad(&mut self, x: i64, y: i64, w: i64, h: i64, _color: nuon::Color) {
        self.quads.push((x, y, w, h));
    }
}

#[test]
fn render_emits_one_quad_per_leaf_at_its_box() {
    let root = two_buttons();
    let tree = Tree::new_for(&root);
    let layout = root.layout(&tree, &ParentLayout { x: 0, y: 0, w: 100, h: 100 }, &LayoutCtx {});
    let mut r = CollectingRenderer { quads: Vec::new() };
    root.render(&mut r, &layout, &nuon::RenderCtx {});
    assert_eq!(r.quads, vec![(0, 0, 10, 10), (10, 0, 10, 10)]);
}

#[test]
fn update_respects_an_already_captured_event() {
    let root: Element<i32> = Button::new().size(10, 10).on_press(7).build();
    let mut tree = Tree::new_for(&root);
    let layout = root.layout(&tree, &ParentLayout { x: 0, y: 0, w: 100, h: 100 }, &LayoutCtx {});

    let mut ctx: UpdateCtx<i32> = UpdateCtx { messages: Vec::new(), event_captured: false };
    root.update(&moved(5, 5), &layout, &mut tree, &mut ctx);
    assert!(!ctx.is_event_captured());

    // the same press arrives already captured by someone upstream
    let mut captured: UpdateCtx<i32> = UpdateCtx { messages: Vec::new(), event_captured: false };
    captured.capture_event();
    assert!(captured.is_event_captured());
    root.update(&press(), &layout, &mut tree, &mut captured);
    assert!(captured.messages.is_empty());
    assert!(!tree.pressed);

    // uncaptured, the press lands
    let mut fresh: UpdateCtx<i32> = UpdateCtx { messages: Vec::new(), event_captured: false };
    root.update(&press(), &layout, &mut tree, &mut fresh);
    assert_eq!(fresh.messages, vec![7]);
    assert!(fresh.is_event_captured());
    assert!(tree.pressed);
}

#[test]
fn when_applies_the_builder_step_only_if_asked() {
    let with: Element<i32> = Row::new()
        .when(true, |r| r.push(Button::new().size(10, 10).build()))
        .build();
    let without: Element<i32> = Row::new()
        .when(false, |r| r.push(Button::new().size(10, 10).build()))
        .build();
    assert_eq!(with.children.len(), 1);
    assert_eq!(without.children.len(), 0);
}
