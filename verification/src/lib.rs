//! A small retained-state UI toolkit: constraint-based row layout, a
//! persistent per-widget state tree, a single-pass capturing event
//! dispatcher, and a time-based animation engine, all over integer logical
//! coordinates so that every frame's layout and routing is a pure function
//! of its inputs.
use vstd::prelude::*;

pub mod animation;
pub mod input;
pub mod top_bar;
pub mod tree;
pub mod widget;

verus! {

/// All coordinates handed to the toolkit stay within this magnitude, so that
/// offsets accumulated while packing children never leave `i64`.
pub const COORD_LIMIT: i64 = 0x1000_0000_0000_0000;

/// Bound on a single widget's intrinsic width, height, and inter-child gap.
pub const DIM_LIMIT: i64 = 0x4000_0000_0000;

/// An RGBA color with 8-bit channels.
#[derive(Clone, Copy, PartialEq, Eq, Structural, Debug)]
pub struct Color {
    pub r: u8,
    pub g: u8,
    pub b: u8,
    pub a: u8,
}

impl Color {
    pub fn new_u8(r: u8, g: u8, b: u8, a: u8) -> (c: Color)
        ensures
            c == (Color { r, g, b, a }),
    {
        Color { r, g, b, a }
    }

    pub fn white() -> (c: Color)
        ensures
            c == (Color { r: 255u8, g: 255u8, b: 255u8, a: 255u8 }),
    {
        Color { r: 255, g: 255, b: 255, a: 255 }
    }
}

/// Context handed to every `render` call; the toolkit itself keeps nothing
/// in it.
pub struct RenderCtx {}

/// Context handed to every `layout` call; the toolkit itself keeps nothing
/// in it.
pub struct LayoutCtx {}

/// Context threaded through one event's trip down the widget tree: the
/// messages emitted so far and whether some widget already captured the
/// event.
pub struct UpdateCtx<MSG> {
    pub messages: Vec<MSG>,
    pub event_captured: bool,
}

impl<MSG> UpdateCtx<MSG> {
    /// Mark the event consumed: widgets visited later in this trip must not
    /// act on it.
    pub fn capture_event(&mut self)
        ensures
            final(self).event_captured == true,
            final(self).messages == old(self).messages,
    {
        self.event_captured = true;
    }

    pub fn is_event_captured(&self) -> (b: bool)
        ensures
            b == self.event_captured,
    {
        self.event_captured
    }
}

/// The constraint a parent offers a child during layout: an absolute
/// position and the extent still available there.
#[derive(Clone, Copy)]
pub struct ParentLayout {
    pub x: i64,
    pub y: i64,
    pub w: i64,
    pub h: i64,
}

/// Mathematical model of a constraint.
#[verifier::ext_equal]
pub struct ConstraintModel {
    pub x: int,
    pub y: int,
    pub w: int,
    pub h: int,
}

impl View for ParentLayout {
    type V = ConstraintModel;

    open spec fn view(&self) -> ConstraintModel {
        ConstraintModel { x: self.x as int, y: self.y as int, w: self.w as int, h: self.h as int }
    }
}

/// A layout box: the absolute position and size of one widget, with the
/// boxes of its children in traversal order. Rebuilt fresh every frame.
pub struct Node {
    pub x: i64,
    pub y: i64,
    pub w: i64,
    pub h: i64,
    pub children: Vec<Node>,
}

/// Mathematical model of a `Node`: the same tree over unbounded integers.
#[verifier::ext_equal]
pub struct NodeModel {
    pub x: int,
    pub y: int,
    pub w: int,
    pub h: int,
    pub children: Seq<NodeModel>,
}

pub open spec fn node_model(n: Node) -> NodeModel
    decreases n, 1int,
{
    NodeModel {
        x: n.x as int,
        y: n.y as int,
        w: n.w as int,
        h: n.h as int,
        children: nodes_model(n.children@),
    }
}

pub open spec fn nodes_model(cs: Seq<Node>) -> Seq<NodeModel>
    decreases cs, 0int,
{
    if cs.len() == 0 {
        Seq::empty()
    } else {
        seq![node_model(cs[0])] + nodes_model(cs.drop_first())
    }
}

impl View for Node {
    type V = NodeModel;

    open spec fn view(&self) -> NodeModel {
        node_model(*self)
    }
}

/// Whether the point `(px, py)` lies in the box: on or right of the left
/// edge and strictly left of the right edge, and likewise vertically.
pub open spec fn contains_spec(n: NodeModel, px: int, py: int) -> bool {
    &&& n.x <= px < n.x + n.w
    &&& n.y <= py < n.y + n.h
}

/// Every coordinate in the box tree stays within `COORD_LIMIT`, so that
/// hit-testing arithmetic fits in `i64`.
pub open spec fn node_bounded(n: NodeModel) -> bool
    decreases n, 1int,
{
    &&& -COORD_LIMIT <= n.x <= COORD_LIMIT
    &&& -COORD_LIMIT <= n.y <= COORD_LIMIT
    &&& -COORD_LIMIT <= n.w <= COORD_LIMIT
    &&& -COORD_LIMIT <= n.h <= COORD_LIMIT
    &&& nodes_bounded(n.children)
}

pub open spec fn nodes_bounded(cs: Seq<NodeModel>) -> bool
    decreases cs, 0int,
{
    if cs.len() == 0 {
        true
    } else {
        node_bounded(cs[0]) && nodes_bounded(cs.drop_first())
    }
}

/// `nodes_model` maps positionally: same length, element by element.
pub proof fn lemma_nodes_model_index(cs: Seq<Node>)
    ensures
        nodes_model(cs).len() == cs.len(),
        forall|i: int| 0 <= i < cs.len() ==> nodes_model(cs)[i] == node_model(cs[i]),
    decreases cs.len(),
{
    if cs.len() > 0 {
        lemma_nodes_model_index(cs.drop_first());
        assert forall|i: int| 0 <= i < cs.len() implies nodes_model(cs)[i] == node_model(
            cs[i],
        ) by {
            if i > 0 {
                assert(nodes_model(cs)[i] == nodes_model(cs.drop_first())[i - 1]);
                assert(cs.drop_first()[i - 1] == cs[i]);
            }
        }
    }
}

/// Each box in a bounded run of boxes is bounded.
pub proof fn lemma_nodes_bounded_index(cs: Seq<NodeModel>, i: int)
    requires
        nodes_bounded(cs),
        0 <= i < cs.len(),
    ensures
        node_bounded(cs[i]),
    decreases i,
{
    if i > 0 {
        lemma_nodes_bounded_index(cs.drop_first(), i - 1);
    }
}

impl Node {
    /// Whether the logical point `(px, py)` lies inside this box.
    pub fn contains(&self, px: i64, py: i64) -> (b: bool)
        requires
            node_bounded(self@),
        ensures
            b == contains_spec(self@, px as int, py as int),
    {
        self.x <= px && px < self.x + self.w && self.y <= py && py < self.y + self.h
    }
}

} // verus!
