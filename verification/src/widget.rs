//! The widget tree and its two verified passes.
//!
//! A widget is a closed tagged variant: a horizontal `Row` that packs its
//! children left to right with a gap, a `Stack` that lays every child at its
//! own origin (so siblings may overlap), and a leaf `Button` with an
//! intrinsic size that reacts to the cursor. Layout is a pure top-down pass
//! producing a box tree; update routes one event through the tree in
//! traversal order, respecting capture.
use vstd::prelude::*;

use crate::input::{Event, MouseButton};
use crate::tree::{
    lemma_trees_match_index, tree_matches, tree_model, trees_match, trees_model, Tree, TreeModel,
};
use crate::{
    contains_spec, node_bounded, node_model, nodes_bounded, nodes_model, Color, ConstraintModel,
    LayoutCtx, Node, NodeModel, ParentLayout, RenderCtx, UpdateCtx, COORD_LIMIT, DIM_LIMIT,
};

verus! {

/// What kind of widget an element is, with the data owned by that kind.
pub enum Kind<MSG> {
    /// Packs children left to right, `gap` logical pixels strictly between
    /// neighbours; reports the packed width and inherits the parent height.
    Row { gap: i64 },
    /// Lays every child at the parent origin with the full parent
    /// constraint; siblings overlap. Reports the widest child's width.
    Stack,
    /// A leaf of intrinsic size. While not captured it tracks hover, and on
    /// a left press inside its box it captures the event and emits
    /// `on_press`; a left release while pressed captures and emits
    /// `on_release`.
    Button { w: i64, h: i64, color: Color, on_press: Option<MSG>, on_release: Option<MSG> },
}

/// One widget in the declared tree: its kind plus its children in traversal
/// order. The host rebuilds this tree every frame.
pub struct Element<MSG> {
    pub kind: Kind<MSG>,
    pub children: Vec<Element<MSG>>,
}

pub open spec fn kind_wf<MSG>(k: Kind<MSG>) -> bool {
    match k {
        Kind::Row { gap } => 0 <= gap <= DIM_LIMIT,
        Kind::Stack => true,
        Kind::Button { w, h, .. } => 0 <= w <= DIM_LIMIT && 0 <= h <= DIM_LIMIT,
    }
}

/// Well-formed widget tree: gaps and intrinsic sizes are nonnegative and
/// bounded, and buttons are leaves.
pub open spec fn elem_wf<MSG>(e: Element<MSG>) -> bool
    decreases e, 1int,
{
    &&& kind_wf(e.kind)
    &&& (e.kind is Button ==> e.children@.len() == 0)
    &&& elems_wf(e.children@)
}

pub open spec fn elems_wf<MSG>(cs: Seq<Element<MSG>>) -> bool
    decreases cs, 0int,
{
    if cs.len() == 0 {
        true
    } else {
        elem_wf(cs[0]) && elems_wf(cs.drop_first())
    }
}

/// An upper bound on the horizontal extent a subtree can consume while
/// being packed: its own intrinsic width for a leaf, and the children's
/// masses plus one gap per child for containers.
pub open spec fn elem_mass<MSG>(e: Element<MSG>) -> int
    decreases e, 1int,
{
    match e.kind {
        Kind::Row { gap } => gap * e.children@.len() + elems_mass(e.children@),
        Kind::Stack => elems_mass(e.children@),
        Kind::Button { w, .. } => w as int,
    }
}

pub open spec fn elems_mass<MSG>(cs: Seq<Element<MSG>>) -> int
    decreases cs, 0int,
{
    if cs.len() == 0 {
        0
    } else {
        elem_mass(cs[0]) + elems_mass(cs.drop_first())
    }
}

pub proof fn lemma_mass_nonneg<MSG>(e: Element<MSG>)
    requires
        elem_wf(e),
    ensures
        elem_mass(e) >= 0,
    decreases e, 1int,
{
    lemma_masses_nonneg(e.children@);
}

pub proof fn lemma_masses_nonneg<MSG>(cs: Seq<Element<MSG>>)
    requires
        elems_wf(cs),
    ensures
        elems_mass(cs) >= 0,
    decreases cs, 0int,
{
    if cs.len() > 0 {
        lemma_mass_nonneg(cs[0]);
        lemma_masses_nonneg(cs.drop_first());
    }
}

/// The constraint `p` leaves enough room within `COORD_LIMIT` to lay out
/// `e` without any `i64` coordinate leaving bounds.
pub open spec fn constraint_ok<MSG>(e: Element<MSG>, p: ConstraintModel) -> bool {
    &&& -COORD_LIMIT <= p.x
    &&& p.x + elem_mass(e) <= COORD_LIMIT
    &&& elem_mass(e) <= COORD_LIMIT
    &&& p.w <= COORD_LIMIT
    &&& -COORD_LIMIT + elem_mass(e) <= p.w
    &&& -COORD_LIMIT <= p.y <= COORD_LIMIT
    &&& -COORD_LIMIT <= p.h <= COORD_LIMIT
}

/// Same bound for the tail of a row still to be packed.
pub open spec fn row_tail_ok<MSG>(cs: Seq<Element<MSG>>, p: ConstraintModel, gap: int) -> bool {
    &&& -COORD_LIMIT <= p.x
    &&& p.x + elems_mass(cs) + gap * cs.len() <= COORD_LIMIT
    &&& elems_mass(cs) + gap * cs.len() <= COORD_LIMIT
    &&& p.w <= COORD_LIMIT
    &&& -COORD_LIMIT + elems_mass(cs) + gap * cs.len() <= p.w
    &&& -COORD_LIMIT <= p.y <= COORD_LIMIT
    &&& -COORD_LIMIT <= p.h <= COORD_LIMIT
}

/// Sum of the reported widths of a sequence of laid-out boxes.
pub open spec fn sum_widths(ns: Seq<NodeModel>) -> int
    decreases ns,
{
    if ns.len() == 0 {
        0
    } else {
        ns[0].w + sum_widths(ns.drop_first())
    }
}

/// The widest reported width among `ns`, or 0 if there are none.
pub open spec fn max_width(ns: Seq<NodeModel>) -> int
    decreases ns,
{
    if ns.len() == 0 {
        0
    } else {
        let rest = max_width(ns.drop_first());
        if ns[0].w >= rest {
            ns[0].w
        } else {
            rest
        }
    }
}

/// The packed width a row of boxes reports: the sum of child widths plus
/// one gap strictly between each pair of neighbours, clamped at zero; an
/// empty row reports zero.
pub open spec fn row_width(ns: Seq<NodeModel>, gap: int) -> int {
    if ns.len() == 0 {
        0
    } else {
        let t = sum_widths(ns) + gap * (ns.len() - 1);
        if t >= 0 {
            t
        } else {
            0
        }
    }
}

/// The boxes of a row's children: each child is offered the room remaining
/// after its earlier siblings and the gaps between them.
pub open spec fn row_children_spec<MSG>(
    cs: Seq<Element<MSG>>,
    p: ConstraintModel,
    gap: int,
) -> Seq<NodeModel>
    decreases cs, 0int,
{
    if cs.len() == 0 {
        Seq::empty()
    } else {
        let first = layout_spec(cs[0], p);
        let adv = first.w + gap;
        seq![first] + row_children_spec(
            cs.drop_first(),
            ConstraintModel { x: p.x + adv, y: p.y, w: p.w - adv, h: p.h },
            gap,
        )
    }
}

/// The boxes of a stack's children: every child is offered the full parent
/// constraint.
pub open spec fn stack_children_spec<MSG>(cs: Seq<Element<MSG>>, p: ConstraintModel) -> Seq<
    NodeModel,
>
    decreases cs, 0int,
{
    if cs.len() == 0 {
        Seq::empty()
    } else {
        seq![layout_spec(cs[0], p)] + stack_children_spec(cs.drop_first(), p)
    }
}

/// The box tree `e` produces under constraint `p`: a pure function of the
/// two, so two layout passes over the same tree and constraint yield the
/// same boxes.
pub open spec fn layout_spec<MSG>(e: Element<MSG>, p: ConstraintModel) -> NodeModel
    decreases e, 1int,
{
    match e.kind {
        Kind::Button { w, h, .. } => NodeModel {
            x: p.x,
            y: p.y,
            w: w as int,
            h: h as int,
            children: Seq::empty(),
        },
        Kind::Stack => {
            let ch = stack_children_spec(e.children@, p);
            NodeModel { x: p.x, y: p.y, w: max_width(ch), h: p.h, children: ch }
        },
        Kind::Row { gap } => {
            let ch = row_children_spec(e.children@, p, gap as int);
            NodeModel { x: p.x, y: p.y, w: row_width(ch, gap as int), h: p.h, children: ch }
        },
    }
}

/// The box tree has the widget tree's shape: same child count at every
/// position, in the same order.
pub open spec fn layout_matches<MSG>(e: Element<MSG>, n: NodeModel) -> bool
    decreases e, 1int,
{
    layouts_match(e.children@, n.children)
}

pub open spec fn layouts_match<MSG>(cs: Seq<Element<MSG>>, ns: Seq<NodeModel>) -> bool
    decreases cs, 0int,
{
    if cs.len() != ns.len() {
        false
    } else if cs.len() == 0 {
        true
    } else {
        layout_matches(cs[0], ns[0]) && layouts_match(cs.drop_first(), ns.drop_first())
    }
}

/// What one event does to one widget subtree: the state tree afterwards,
/// the messages emitted (in traversal order), and whether the event is
/// captured on the way out.
#[verifier::ext_equal]
pub struct UpdateOut<MSG> {
    pub tree: TreeModel,
    pub msgs: Seq<MSG>,
    pub captured: bool,
}

/// As `UpdateOut`, for a run of siblings.
#[verifier::ext_equal]
pub struct UpdateSeqOut<MSG> {
    pub trees: Seq<TreeModel>,
    pub msgs: Seq<MSG>,
    pub captured: bool,
}

pub open spec fn opt_msgs<MSG>(m: Option<MSG>) -> Seq<MSG> {
    match m {
        Option::Some(v) => seq![v],
        Option::None => Seq::empty(),
    }
}

/// A button's reaction to one event. A captured event leaves it untouched.
/// Otherwise: a cursor move re-derives hover from the box; a left press
/// while hovered records the press, emits `on_press` and captures; a left
/// release while pressed clears the press, emits `on_release` and captures.
pub open spec fn button_update_spec<MSG>(
    k: Kind<MSG>,
    ev: Event,
    lay: NodeModel,
    t: TreeModel,
    captured: bool,
) -> UpdateOut<MSG>
    recommends
        k is Button,
{
    if captured {
        UpdateOut { tree: t, msgs: Seq::empty(), captured: true }
    } else {
        match ev {
            Event::CursorMoved { x, y } => UpdateOut {
                tree: TreeModel {
                    hovered: contains_spec(lay, x as int, y as int),
                    pressed: t.pressed,
                    children: t.children,
                },
                msgs: Seq::empty(),
                captured: false,
            },
            Event::MousePress { button: MouseButton::Left } => {
                if t.hovered {
                    UpdateOut {
                        tree: TreeModel { hovered: t.hovered, pressed: true, children: t.children },
                        msgs: opt_msgs(k->Button_on_press),
                        captured: true,
                    }
                } else {
                    UpdateOut { tree: t, msgs: Seq::empty(), captured: false }
                }
            },
            Event::MouseRelease { button: MouseButton::Left } => {
                if t.pressed {
                    UpdateOut {
                        tree: TreeModel {
                            hovered: t.hovered,
                            pressed: false,
                            children: t.children,
                        },
                        msgs: opt_msgs(k->Button_on_release),
                        captured: true,
                    }
                } else {
                    UpdateOut { tree: t, msgs: Seq::empty(), captured: false }
                }
            },
            _ => UpdateOut { tree: t, msgs: Seq::empty(), captured: false },
        }
    }
}

/// What one event does to a widget subtree, starting with capture flag
/// `captured`: a container routes the event to each child in traversal
/// order, threading the flag left to right; a button reacts itself.
pub open spec fn update_spec<MSG>(
    e: Element<MSG>,
    ev: Event,
    lay: NodeModel,
    t: TreeModel,
    captured: bool,
) -> UpdateOut<MSG>
    decreases e, 1int,
{
    match e.kind {
        Kind::Button { .. } => button_update_spec(e.kind, ev, lay, t, captured),
        _ => {
            let out = children_update_spec(e.children@, ev, lay.children, t.children, captured);
            UpdateOut {
                tree: TreeModel { hovered: t.hovered, pressed: t.pressed, children: out.trees },
                msgs: out.msgs,
                captured: out.captured,
            }
        },
    }
}

pub open spec fn children_update_spec<MSG>(
    cs: Seq<Element<MSG>>,
    ev: Event,
    lays: Seq<NodeModel>,
    ts: Seq<TreeModel>,
    captured: bool,
) -> UpdateSeqOut<MSG>
    decreases cs, 0int,
{
    if cs.len() == 0 {
        UpdateSeqOut { trees: Seq::empty(), msgs: Seq::empty(), captured }
    } else {
        let first = update_spec(cs[0], ev, lays[0], ts[0], captured);
        let rest = children_update_spec(
            cs.drop_first(),
            ev,
            lays.drop_first(),
            ts.drop_first(),
            first.captured,
        );
        UpdateSeqOut {
            trees: seq![first.tree] + rest.trees,
            msgs: first.msgs + rest.msgs,
            captured: rest.captured,
        }
    }
}

/// Routing an event never changes the state tree's shape.
pub proof fn lemma_update_preserves_match<MSG>(
    e: Element<MSG>,
    ev: Event,
    lay: NodeModel,
    t: TreeModel,
    captured: bool,
)
    requires
        tree_matches(e, t),
    ensures
        tree_matches(e, update_spec(e, ev, lay, t, captured).tree),
    decreases e, 1int,
{
    match e.kind {
        Kind::Button { .. } => {
        },
        _ => {
            lemma_children_update_preserves_match(e.children@, ev, lay.children, t.children, captured);
        },
    }
}

pub proof fn lemma_children_update_preserves_match<MSG>(
    cs: Seq<Element<MSG>>,
    ev: Event,
    lays: Seq<NodeModel>,
    ts: Seq<TreeModel>,
    captured: bool,
)
    requires
        trees_match(cs, ts),
    ensures
        trees_match(cs, children_update_spec(cs, ev, lays, ts, captured).trees),
        children_update_spec(cs, ev, lays, ts, captured).trees.len() == cs.len(),
    decreases cs, 0int,
{
    if cs.len() > 0 {
        let first = update_spec(cs[0], ev, lays[0], ts[0], captured);
        lemma_update_preserves_match(cs[0], ev, lays[0], ts[0], captured);
        lemma_children_update_preserves_match(
            cs.drop_first(),
            ev,
            lays.drop_first(),
            ts.drop_first(),
            first.captured,
        );
        let out = children_update_spec(cs, ev, lays, ts, captured);
        assert(out.trees.drop_first() =~= children_update_spec(
            cs.drop_first(),
            ev,
            lays.drop_first(),
            ts.drop_first(),
            first.captured,
        ).trees);
    }
}

/// Capture blocks a whole subtree: an event that arrives already captured
/// changes no state, emits no message, and stays captured. In particular a
/// sibling visited after the capturing widget never acts on that event.
pub proof fn lemma_captured_event_is_inert<MSG>(
    e: Element<MSG>,
    ev: Event,
    lay: NodeModel,
    t: TreeModel,
)
    requires
        tree_matches(e, t),
    ensures
        update_spec(e, ev, lay, t, true).tree == t,
        update_spec(e, ev, lay, t, true).msgs == Seq::<MSG>::empty(),
        update_spec(e, ev, lay, t, true).captured,
    decreases e, 1int,
{
    match e.kind {
        Kind::Button { .. } => {
        },
        _ => {
            lemma_captured_event_is_inert_seq(e.children@, ev, lay.children, t.children);
            assert(update_spec(e, ev, lay, t, true).tree =~= t);
        },
    }
}

pub proof fn lemma_captured_event_is_inert_seq<MSG>(
    cs: Seq<Element<MSG>>,
    ev: Event,
    lays: Seq<NodeModel>,
    ts: Seq<TreeModel>,
)
    requires
        trees_match(cs, ts),
    ensures
        children_update_spec(cs, ev, lays, ts, true).trees =~= ts,
        children_update_spec(cs, ev, lays, ts, true).msgs == Seq::<MSG>::empty(),
        children_update_spec(cs, ev, lays, ts, true).captured,
    decreases cs, 0int,
{
    if cs.len() > 0 {
        lemma_captured_event_is_inert(cs[0], ev, lays[0], ts[0]);
        lemma_captured_event_is_inert_seq(cs.drop_first(), ev, lays.drop_first(), ts.drop_first());
        assert(children_update_spec(cs, ev, lays, ts, true).trees =~= seq![ts[0]]
            + ts.drop_first());
        assert(seq![ts[0]] + ts.drop_first() =~= ts);
    }
}

/// A packed row reports `max(0, sum of child widths + gap * (n - 1))` for
/// `n > 0` children, and width 0 when it has none.
pub proof fn lemma_row_reported_width<MSG>(e: Element<MSG>, p: ConstraintModel)
    requires
        e.kind is Row,
    ensures
        ({
            let n = layout_spec(e, p);
            let g = e.kind->Row_gap as int;
            n.w == if n.children.len() == 0 {
                0int
            } else {
                let t = sum_widths(n.children) + g * (n.children.len() - 1);
                if t >= 0 {
                    t
                } else {
                    0int
                }
            }
        }),
{
}

/// Two layout passes over the same widget tree and constraint yield the
/// same box tree: layout is a pure function of its inputs.
pub proof fn lemma_layout_deterministic<MSG>(
    e: Element<MSG>,
    p: ConstraintModel,
    n1: NodeModel,
    n2: NodeModel,
)
    requires
        n1 == layout_spec(e, p),
        n2 == layout_spec(e, p),
    ensures
        n1 == n2,
{
}

/// Matching runs of boxes match position by position.
pub proof fn lemma_layouts_match_index<MSG>(cs: Seq<Element<MSG>>, ns: Seq<NodeModel>, i: int)
    requires
        layouts_match(cs, ns),
        0 <= i < cs.len(),
    ensures
        layout_matches(cs[i], ns[i]),
    decreases i,
{
    if i > 0 {
        lemma_layouts_match_index(cs.drop_first(), ns.drop_first(), i - 1);
    }
}

/// An abstract drawing surface: the host's backend implements it, and the
/// toolkit issues only these primitive calls during its render pass.
pub trait Renderer {
    fn draw_quad(&mut self, x: i64, y: i64, w: i64, h: i64, color: Color);
}

impl<MSG: Copy> Element<MSG> {
    /// Compute this widget's box under `parent`, laying out children
    /// top-down. Pure: the result is exactly `layout_spec` of the widget
    /// tree and the constraint, so identical inputs give identical boxes.
    pub fn layout(&self, tree: &Tree, parent: &ParentLayout, ctx: &LayoutCtx) -> (node: Node)
        requires
            elem_wf(*self),
            tree_matches(*self, tree@),
            constraint_ok(*self, parent@),
        ensures
            node@ == layout_spec(*self, parent@),
            node@.x == parent@.x,
            node@.y == parent@.y,
            0 <= node@.w <= elem_mass(*self),
            node_bounded(node@),
            layout_matches(*self, node@),
        decreases *self, 1int,
    {
        proof {
            lemma_mass_nonneg(*self);
        }
        match &self.kind {
            Kind::Button { w, h, .. } => {
                let node = Node { x: parent.x, y: parent.y, w: *w, h: *h, children: Vec::new() };
                proof {
                    assert(nodes_model(node.children@) =~= Seq::<NodeModel>::empty());
                }
                node
            },
            Kind::Stack => {
                proof {
                    assert(self.children@.skip(0) =~= self.children@);
                    crate::tree::lemma_trees_model_index(tree.children@);
                }
                let r = layout_stack_children(&self.children, 0, &tree.children, *parent, ctx);
                let children = r.0;
                let node = Node { x: parent.x, y: parent.y, w: r.1, h: parent.h, children };
                node
            },
            Kind::Row { gap } => {
                let g = *gap;
                proof {
                    assert(self.children@.skip(0) =~= self.children@);
                    crate::tree::lemma_trees_model_index(tree.children@);
                }
                let r = layout_row_children(&self.children, 0, &tree.children, *parent, ctx, g);
                let (children, sum) = (r.0, r.1);
                let n = self.children.len();
                let mut w: i64 = 0;
                if n > 0 {
                    let ghost cs = self.children@;
                    let ghost gi = g as int;
                    proof {
                        assert(gi * (cs.len() - 1) <= gi * cs.len() && 0 <= gi * (cs.len() - 1))
                            by (nonlinear_arith)
                            requires
                                0 <= gi,
                                1 <= cs.len(),
                        ;
                    }
                    let gaps: i64;
                    if g > 0 {
                        proof {
                            assert((n - 1) as int <= gi * cs.len()) by (nonlinear_arith)
                                requires
                                    1 <= gi,
                                    1 <= cs.len(),
                                    n == cs.len(),
                            ;
                            assert(gi * ((n - 1) as int) == gi * (cs.len() - 1));
                        }
                        gaps = g * ((n - 1) as i64);
                    } else {
                        proof {
                            assert(0int * (cs.len() - 1) == 0) by (nonlinear_arith);
                        }
                        gaps = 0;
                    }
                    w = sum + gaps;
                    if w < 0 {
                        w = 0;
                    }
                }
                let node = Node { x: parent.x, y: parent.y, w, h: parent.h, children };
                node
            },
        }
    }

    /// Route one event through this subtree in traversal order, updating
    /// the paired state tree, appending emitted messages to the context,
    /// and setting its capture flag exactly as `update_spec` says.
    pub fn update(&self, event: &Event, layout: &Node, tree: &mut Tree, ctx: &mut UpdateCtx<MSG>)
        requires
            tree_matches(*self, old(tree)@),
            layout_matches(*self, layout@),
            node_bounded(layout@),
        ensures
            ({
                let out = update_spec(*self, *event, layout@, old(tree)@, old(ctx).event_captured);
                &&& final(tree)@ == out.tree
                &&& final(ctx).messages@ == old(ctx).messages@ + out.msgs
                &&& final(ctx).event_captured == out.captured
            }),
        decreases *self, 1int,
    {
        let ghost out = update_spec(*self, *event, layout@, old(tree)@, old(ctx).event_captured);
        match &self.kind {
            Kind::Button { on_press, on_release, .. } => {
                if !ctx.is_event_captured() {
                    match event {
                        Event::CursorMoved { x, y } => {
                            let h = layout.contains(*x, *y);
                            tree.hovered = h;
                        },
                        Event::MousePress { button: MouseButton::Left } => {
                            if tree.hovered {
                                tree.pressed = true;
                                if let Option::Some(m) = on_press {
                                    ctx.messages.push(*m);
                                }
                                ctx.capture_event();
                            }
                        },
                        Event::MouseRelease { button: MouseButton::Left } => {
                            if tree.pressed {
                                tree.pressed = false;
                                if let Option::Some(m) = on_release {
                                    ctx.messages.push(*m);
                                }
                                ctx.capture_event();
                            }
                        },
                        _ => {
                        },
                    }
                }
                proof {
                    assert(ctx.messages@ =~= old(ctx).messages@ + out.msgs);
                }
            },
            _ => {
                let mut ts: Vec<Tree> = Vec::new();
                core::mem::swap(&mut tree.children, &mut ts);
                proof {
                    assert(self.children@.skip(0) =~= self.children@);
                    assert(nodes_model(layout.children@).skip(0) =~= layout@.children);
                    crate::lemma_nodes_model_index(layout.children@);
                    crate::tree::lemma_trees_model_index(ts@);
                    assert(trees_model(ts@) == old(tree)@.children);
                }
                let new_children = update_children(
                    &self.children,
                    0,
                    event,
                    &layout.children,
                    ts,
                    ctx,
                );
                tree.children = new_children;
                proof {
                    let cspec = children_update_spec(
                        self.children@,
                        *event,
                        layout@.children,
                        old(tree)@.children,
                        old(ctx).event_captured,
                    );
                    assert(trees_model(tree.children@) == cspec.trees);
                    assert(tree@ =~= out.tree);
                }
            },
        }
    }
}

/// Lay out the stack tail `cs[i..]`: every child is offered the full
/// parent constraint. Returns the child boxes and the widest reported
/// width.
fn layout_stack_children<MSG: Copy>(
    cs: &Vec<Element<MSG>>,
    i: usize,
    ts: &Vec<Tree>,
    parent: ParentLayout,
    ctx: &LayoutCtx,
) -> (out: (Vec<Node>, i64))
    requires
        i <= cs@.len(),
        cs@.len() == ts@.len(),
        elems_wf(cs@.skip(i as int)),
        trees_match(cs@, trees_model(ts@)),
        row_tail_ok(cs@.skip(i as int), parent@, 0),
    ensures
        nodes_model(out.0@) == stack_children_spec(cs@.skip(i as int), parent@),
        out.0@.len() == cs@.len() - i,
        out.1 == max_width(nodes_model(out.0@)),
        0 <= out.1 <= elems_mass(cs@.skip(i as int)),
        nodes_bounded(nodes_model(out.0@)),
        layouts_match(cs@.skip(i as int), nodes_model(out.0@)),
    decreases cs@, cs@.len() - i,
{
    if i == cs.len() {
        let out: Vec<Node> = Vec::new();
        proof {
            assert(cs@.skip(i as int) =~= Seq::<Element<MSG>>::empty());
            assert(nodes_model(out@) =~= Seq::<NodeModel>::empty());
            assert(max_width(nodes_model(out@)) == 0);
            assert(nodes_bounded(nodes_model(out@)));
            assert(layouts_match(cs@.skip(i as int), nodes_model(out@)));
        }
        (out, 0)
    } else {
        let ghost tail = cs@.skip(i as int);
        let ghost rest_tail = cs@.skip(i + 1);
        proof {
            assert(tail[0] == cs@[i as int]);
            assert(tail.drop_first() =~= rest_tail);
            lemma_trees_match_index(cs@, trees_model(ts@), i as int);
            crate::tree::lemma_trees_model_index(ts@);
            lemma_mass_nonneg(cs@[i as int]);
            lemma_masses_nonneg(rest_tail);
        }
        let child_node = cs[i].layout(&ts[i], &parent, ctx);
        let ghost head = child_node;
        let r = layout_stack_children(cs, i + 1, ts, parent, ctx);
        let mut rest = r.0;
        let widest = if child_node.w >= r.1 {
            child_node.w
        } else {
            r.1
        };
        let ghost r0 = rest@;
        rest.insert(0, child_node);
        proof {
            assert(rest@[0] == head);
            assert(rest@.drop_first() =~= r0);
            assert(nodes_model(rest@) == seq![node_model(head)] + nodes_model(r0));
            assert(nodes_model(rest@).drop_first() =~= nodes_model(r0));
            assert(nodes_model(rest@)[0] == node_model(head));
            assert(nodes_model(rest@) =~= stack_children_spec(tail, parent@));
        }
        (rest, widest)
    }
}

/// Lay out the row tail `cs[i..]` under `parent`, advancing the offered
/// box by each child's reported width plus `gap`. Returns the child boxes
/// and the sum of their reported widths.
fn layout_row_children<MSG: Copy>(
    cs: &Vec<Element<MSG>>,
    i: usize,
    ts: &Vec<Tree>,
    parent: ParentLayout,
    ctx: &LayoutCtx,
    gap: i64,
) -> (out: (Vec<Node>, i64))
    requires
        i <= cs@.len(),
        cs@.len() == ts@.len(),
        elems_wf(cs@.skip(i as int)),
        trees_match(cs@, trees_model(ts@)),
        0 <= gap <= DIM_LIMIT,
        row_tail_ok(cs@.skip(i as int), parent@, gap as int),
    ensures
        nodes_model(out.0@) == row_children_spec(cs@.skip(i as int), parent@, gap as int),
        out.0@.len() == cs@.len() - i,
        out.1 == sum_widths(nodes_model(out.0@)),
        0 <= out.1 <= elems_mass(cs@.skip(i as int)),
        nodes_bounded(nodes_model(out.0@)),
        layouts_match(cs@.skip(i as int), nodes_model(out.0@)),
    decreases cs@, cs@.len() - i,
{
    if i == cs.len() {
        let out: Vec<Node> = Vec::new();
        proof {
            assert(cs@.skip(i as int) =~= Seq::<Element<MSG>>::empty());
            assert(nodes_model(out@) =~= Seq::<NodeModel>::empty());
            assert(sum_widths(nodes_model(out@)) == 0);
            assert(nodes_bounded(nodes_model(out@)));
            assert(layouts_match(cs@.skip(i as int), nodes_model(out@)));
        }
        (out, 0)
    } else {
        let ghost tail = cs@.skip(i as int);
        let ghost rest_tail = cs@.skip(i + 1);
        proof {
            assert(tail[0] == cs@[i as int]);
            assert(tail.drop_first() =~= rest_tail);
            lemma_trees_match_index(cs@, trees_model(ts@), i as int);
            crate::tree::lemma_trees_model_index(ts@);
            lemma_mass_nonneg(cs@[i as int]);
            lemma_masses_nonneg(rest_tail);
            assert(gap * tail.len() == gap * rest_tail.len() + gap) by (nonlinear_arith)
                requires
                    tail.len() == rest_tail.len() + 1,
            ;
            assert(0 <= gap * rest_tail.len()) by (nonlinear_arith)
                requires
                    0 <= gap,
                    0 <= rest_tail.len(),
            ;
        }
        let child_node = cs[i].layout(&ts[i], &parent, ctx);
        let ghost head = child_node;
        let adv = child_node.w + gap;
        let next = ParentLayout { x: parent.x + adv, y: parent.y, w: parent.w - adv, h: parent.h };
        let r = layout_row_children(cs, i + 1, ts, next, ctx, gap);
        let mut rest = r.0;
        let total = child_node.w + r.1;
        let ghost r0 = rest@;
        rest.insert(0, child_node);
        proof {
            assert(rest@[0] == head);
            assert(rest@.drop_first() =~= r0);
            assert(nodes_model(rest@) == seq![node_model(head)] + nodes_model(r0));
            assert(nodes_model(rest@).drop_first() =~= nodes_model(r0));
            assert(nodes_model(rest@)[0] == node_model(head));
            assert(nodes_model(rest@) =~= row_children_spec(tail, parent@, gap as int));
        }
        (rest, total)
    }
}

/// Route one event through the sibling run `cs[i..]`, threading the
/// capture flag left to right; `ts` is the matching run of state trees,
/// consumed and returned updated.
fn update_children<MSG: Copy>(
    cs: &Vec<Element<MSG>>,
    i: usize,
    event: &Event,
    lays: &Vec<Node>,
    ts: Vec<Tree>,
    ctx: &mut UpdateCtx<MSG>,
) -> (out: Vec<Tree>)
    requires
        i <= cs@.len(),
        cs@.len() == lays@.len(),
        ts@.len() == cs@.len() - i,
        trees_match(cs@.skip(i as int), trees_model(ts@)),
        layouts_match(cs@, nodes_model(lays@)),
        nodes_bounded(nodes_model(lays@)),
    ensures
        ({
            let out_spec = children_update_spec(
                cs@.skip(i as int),
                *event,
                nodes_model(lays@).skip(i as int),
                trees_model(ts@),
                old(ctx).event_captured,
            );
            &&& trees_model(out@) == out_spec.trees
            &&& out@.len() == cs@.len() - i
            &&& final(ctx).messages@ == old(ctx).messages@ + out_spec.msgs
            &&& final(ctx).event_captured == out_spec.captured
        }),
    decreases cs@, cs@.len() - i,
{
    proof {
        crate::lemma_nodes_model_index(lays@);
    }
    if i == cs.len() {
        let out: Vec<Tree> = Vec::new();
        proof {
            assert(cs@.skip(i as int) =~= Seq::<Element<MSG>>::empty());
            assert(trees_model(out@) =~= Seq::<TreeModel>::empty());
            assert(old(ctx).messages@ + Seq::<MSG>::empty() =~= old(ctx).messages@);
        }
        out
    } else {
        let ghost tail = cs@.skip(i as int);
        let ghost lays_tail = nodes_model(lays@).skip(i as int);
        let ghost ts0 = ts@;
        proof {
            assert(tail[0] == cs@[i as int]);
            assert(tail.drop_first() =~= cs@.skip(i + 1));
            assert(lays_tail[0] == nodes_model(lays@)[i as int]);
            assert(lays_tail.drop_first() =~= nodes_model(lays@).skip(i + 1));
            lemma_layouts_match_index(cs@, nodes_model(lays@), i as int);
            crate::lemma_nodes_bounded_index(nodes_model(lays@), i as int);
        }
        let mut ts = ts;
        let mut t0 = ts.remove(0);
        proof {
            assert(trees_model(ts0) =~= seq![crate::tree::tree_model(ts0[0])] + trees_model(
                ts0.drop_first(),
            ));
            assert(ts@ =~= ts0.drop_first());
            assert(trees_model(ts0).drop_first() =~= trees_model(ts0.drop_first()));
            assert(trees_model(ts0)[0] == crate::tree::tree_model(ts0[0]));
            assert(trees_match(cs@.skip(i + 1), trees_model(ts@)));
        }
        let ghost m_before = ctx.messages@;
        cs[i].update(event, &lays[i], &mut t0, ctx);
        let ghost first = update_spec(
            cs@[i as int],
            *event,
            nodes_model(lays@)[i as int],
            crate::tree::tree_model(ts0[0]),
            old(ctx).event_captured,
        );
        let mut rest = update_children(cs, i + 1, event, lays, ts, ctx);
        let ghost rest_spec = children_update_spec(
            cs@.skip(i + 1),
            *event,
            nodes_model(lays@).skip(i + 1),
            trees_model(ts0.drop_first()),
            first.captured,
        );
        let ghost head = t0;
        let ghost r0 = rest@;
        rest.insert(0, t0);
        proof {
            assert(rest@[0] == head);
            assert(rest@.drop_first() =~= r0);
            assert(trees_model(rest@) == seq![tree_model(head)] + trees_model(r0));
            assert(ctx.messages@ =~= m_before + (first.msgs + rest_spec.msgs));
            assert(trees_model(rest@) =~= children_update_spec(
                tail,
                *event,
                lays_tail,
                trees_model(ts0),
                old(ctx).event_captured,
            ).trees);
        }
        rest
    }
}

impl<MSG: Copy> Element<MSG> {
    /// Walk the laid-out tree in traversal order, issuing one primitive
    /// draw call per leaf to the host's renderer. Read-only: neither the
    /// widget tree nor the layout changes.
    pub fn render<R: Renderer>(&self, renderer: &mut R, layout: &Node, ctx: &RenderCtx)
        requires
            layout_matches(*self, layout@),
        decreases *self, 1int,
    {
        match &self.kind {
            Kind::Button { color, .. } => {
                renderer.draw_quad(layout.x, layout.y, layout.w, layout.h, *color);
            },
            _ => {
                proof {
                    crate::lemma_nodes_model_index(layout.children@);
                }
                render_children(&self.children, 0, renderer, &layout.children, ctx);
            },
        }
    }

    /// A stack container over `children`: every child is laid out at the
    /// parent origin with the full parent constraint, so children overlap.
    pub fn stack(children: Vec<Element<MSG>>) -> (e: Element<MSG>)
        ensures
            e.kind is Stack,
            e.children == children,
            elems_wf(children@) ==> elem_wf(e),
    {
        Element { kind: Kind::Stack, children }
    }
}

fn render_children<MSG: Copy, R: Renderer>(
    cs: &Vec<Element<MSG>>,
    i: usize,
    renderer: &mut R,
    lays: &Vec<Node>,
    ctx: &RenderCtx,
)
    requires
        i <= cs@.len(),
        cs@.len() == lays@.len(),
        layouts_match(cs@, nodes_model(lays@)),
    decreases cs@, cs@.len() - i,
{
    if i < cs.len() {
        proof {
            lemma_layouts_match_index(cs@, nodes_model(lays@), i as int);
            crate::lemma_nodes_model_index(lays@);
        }
        cs[i].render(renderer, &lays[i], ctx);
        render_children(cs, i + 1, renderer, lays, ctx);
    }
}

/// Clamp a configured dimension onto `0 ..= DIM_LIMIT`.
pub open spec fn clamp_dim_spec(v: int) -> int {
    if v < 0 {
        0
    } else if v > DIM_LIMIT {
        DIM_LIMIT as int
    } else {
        v
    }
}

fn clamp_dim(v: i64) -> (r: i64)
    ensures
        r == clamp_dim_spec(v as int),
{
    if v < 0 {
        0
    } else if v > DIM_LIMIT {
        DIM_LIMIT
    } else {
        v
    }
}

/// Fluent builder for a row that packs its children left to right.
pub struct Row<MSG> {
    pub children: Vec<Element<MSG>>,
    pub gap: i64,
}

impl<MSG: Copy> Row<MSG> {
    pub fn new() -> (r: Row<MSG>)
        ensures
            r.children@.len() == 0,
            r.gap == 0,
    {
        Row { children: Vec::new(), gap: 0 }
    }

    /// Set the space between neighbouring children; a negative or oversized
    /// gap is defensively clamped.
    pub fn gap(self, gap: i64) -> (r: Row<MSG>)
        ensures
            r.gap == clamp_dim_spec(gap as int),
            r.children == self.children,
    {
        let g = clamp_dim(gap);
        Row { gap: g, ..self }
    }

    /// Append one child.
    pub fn push(self, child: Element<MSG>) -> (r: Row<MSG>)
        ensures
            r.children@ == self.children@.push(child),
            r.gap == self.gap,
    {
        let mut s = self;
        s.children.push(child);
        s
    }

    /// Apply `f` to the builder only when `v` holds.
    pub fn when<F: FnOnce(Row<MSG>) -> Row<MSG>>(self, v: bool, f: F) -> (r: Row<MSG>)
        requires
            v ==> f.requires((self,)),
        ensures
            v ==> f.ensures((self,), r),
            !v ==> r == self,
    {
        if v {
            f(self)
        } else {
            self
        }
    }

    /// Finish the builder into a widget.
    pub fn build(self) -> (e: Element<MSG>)
        ensures
            e.kind == (Kind::<MSG>::Row { gap: clamp_dim_spec(self.gap as int) as i64 }),
            e.children == self.children,
            elems_wf(self.children@) ==> elem_wf(e),
    {
        let g = clamp_dim(self.gap);
        Element { kind: Kind::Row { gap: g }, children: self.children }
    }
}

/// Fluent builder for a leaf button of intrinsic size.
pub struct Button<MSG> {
    pub w: i64,
    pub h: i64,
    pub color: Color,
    pub on_press: Option<MSG>,
    pub on_release: Option<MSG>,
}

impl<MSG: Copy> Button<MSG> {
    pub fn new() -> (b: Button<MSG>)
        ensures
            b.w == 0,
            b.h == 0,
            b.on_press is None,
            b.on_release is None,
    {
        Button {
            w: 0,
            h: 0,
            color: Color { r: 255, g: 255, b: 255, a: 255 },
            on_press: Option::None,
            on_release: Option::None,
        }
    }

    /// Set the intrinsic size; negative or oversized values are clamped.
    pub fn size(self, w: i64, h: i64) -> (b: Button<MSG>)
        ensures
            b == (Button { w: clamp_dim_spec(w as int) as i64, h: clamp_dim_spec(h as int) as i64, ..self }),
    {
        let cw = clamp_dim(w);
        let ch = clamp_dim(h);
        Button { w: cw, h: ch, ..self }
    }

    pub fn color(self, color: Color) -> (b: Button<MSG>)
        ensures
            b == (Button { color, ..self }),
    {
        Button { color, ..self }
    }

    /// Emit `m` when a left press lands on the hovered button.
    pub fn on_press(self, m: MSG) -> (b: Button<MSG>)
        ensures
            b == (Button { on_press: Option::Some(m), ..self }),
    {
        Button { on_press: Option::Some(m), ..self }
    }

    /// Emit `m` when the grabbed button is released.
    pub fn on_release(self, m: MSG) -> (b: Button<MSG>)
        ensures
            b == (Button { on_release: Option::Some(m), ..self }),
    {
        Button { on_release: Option::Some(m), ..self }
    }

    /// Finish the builder into a widget; the result is well formed.
    pub fn build(self) -> (e: Element<MSG>)
        ensures
            e.kind == (Kind::Button {
                w: clamp_dim_spec(self.w as int) as i64,
                h: clamp_dim_spec(self.h as int) as i64,
                color: self.color,
                on_press: self.on_press,
                on_release: self.on_release,
            }),
            e.children@.len() == 0,
            elem_wf(e),
    {
        let w = clamp_dim(self.w);
        let h = clamp_dim(self.h);
        let e = Element {
            kind: Kind::Button {
                w,
                h,
                color: self.color,
                on_press: self.on_press,
                on_release: self.on_release,
            },
            children: Vec::new(),
        };
        proof {
            assert(e.children@ =~= Seq::<Element<MSG>>::empty());
        }
        e
    }
}

} // verus!
