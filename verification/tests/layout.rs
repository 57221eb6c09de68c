use nuon::widget::{Button, Element, Row};
use nuon::tree::Tree;
use nuon::{LayoutCtx, Node, ParentLayout};

fn parent(x: i64, y: i64, w: i64, h: i64) -> ParentLayout {
    ParentLayout { x, y, w, h }
}

fn nodes_equal(a: &Node, b: &Node) -> bool {
    a.x == b.x && a.y == b.y && a.w == b.w && a.h == b.h && a.children.len() == b.children.len()
        && a.children.iter().zip(b.children.iter()).all(|(c, d)| nodes_equal(c, d))
}

fn button(w: i64, h: i64) -> Element<i32> {
    Button::new().size(w, h).build()
}

#[test]
fn row_packs_children_with_gap() {
    let row: Element<i32> = Row::new().gap(10).push(button(50, 10)).push(button(30, 10)).build();
    let tree = Tree::new_for(&row);
    let node = row.layout(&tree, &parent(0, 0, 500, 100), &LayoutCtx {});
    assert_eq!(node.x, 0);
    assert_eq!(node.y, 0);
    assert_eq!(node.w, 90);
    assert_eq!(node.h, 100);
    assert_eq!(node.children.len(), 2);
    assert_eq!(node.children[0].x, 0);
    assert_eq!(node.children[0].w, 50);
    assert_eq!(node.children[1].x, 60);
    assert_eq!(node.children[1].w, 30);
}

#[test]
fn empty_row_reports_zero_width() {
    let row: Element<i32> = Row::new().gap(25).build();
    let tree = Tree::new_for(&row);
    let node = row.layout(&tree, &parent(7, 3, 400, 50), &LayoutCtx {});
    assert_eq!(node.w, 0);
    assert_eq!(node.x, 7);
    assert_eq!(node.y, 3);
    assert_eq!(node.h, 50);
    assert!(node.children.is_empty());
}

#[test]
fn gap_applies_only_between_children() {
    let row: Element<i32> = Row::new().gap(10).push(button(40, 10)).build();
    let tree = Tree::new_for(&row);
    let node = row.layout(&tree, &parent(0, 0, 500, 100), &LayoutCtx {});
    assert_eq!(node.w, 40);
}

#[test]
fn negative_gap_is_clamped_to_zero() {
    let row: Element<i32> = Row::new().gap(-10).push(button(40, 10)).push(button(5, 10)).build();
    let tree = Tree::new_for(&row);
    let node = row.layout(&tree, &parent(0, 0, 500, 100), &LayoutCtx {});
    assert_eq!(node.w, 45);
    assert_eq!(node.children[1].x, 40);
}

#[test]
fn nested_rows_accumulate_offsets() {
    let inner: Element<i32> = Row::new().gap(5).push(button(10, 10)).push(button(10, 10)).build();
    let row: Element<i32> = Row::new().gap(10).push(button(20, 10)).push(inner).build();
    let tree = Tree::new_for(&row);
    let node = row.layout(&tree, &parent(0, 0, 500, 100), &LayoutCtx {});
    // inner row reports 10 + 5 + 10 = 25; total is 20 + 10 + 25 = 55
    assert_eq!(node.w, 55);
    assert_eq!(node.children[1].x, 30);
    assert_eq!(node.children[1].children[1].x, 45);
}

#[test]
fn stack_children_share_the_origin_and_width_is_the_widest() {
    let stack: Element<i32> = Element::stack(vec![button(10, 10), button(20, 20)]);
    let tree = Tree::new_for(&stack);
    let node = stack.layout(&tree, &parent(0, 0, 500, 100), &LayoutCtx {});
    assert_eq!(node.w, 20);
    assert_eq!(node.children[0].x, 0);
    assert_eq!(node.children[1].x, 0);
    assert_eq!(node.children[0].w, 10);
    assert_eq!(node.children[1].w, 20);
}

#[test]
fn layout_is_idempotent() {
    let row: Element<i32> = Row::new().gap(3).push(button(17, 9)).push(
        Element::stack(vec![button(4, 4), button(50, 2)]),
    ).build();
    let tree = Tree::new_for(&row);
    let p = parent(12, 34, 640, 480);
    let a = row.layout(&tree, &p, &LayoutCtx {});
    let b = row.layout(&tree, &p, &LayoutCtx {});
    assert!(nodes_equal(&a, &b));
}

#[test]
fn node_contains_uses_half_open_edges() {
    let b: Element<i32> = button(10, 10);
    let tree = Tree::new_for(&b);
    let node = b.layout(&tree, &parent(0, 0, 100, 100), &LayoutCtx {});
    assert!(node.contains(0, 0));
    assert!(node.contains(9, 9));
    assert!(!node.contains(10, 0));
    assert!(!node.contains(0, 10));
    assert!(!node.contains(-1, 5));
}
