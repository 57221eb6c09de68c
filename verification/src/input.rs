//! The toolkit's input vocabulary and the per-frame event queue.
//!
//! The host translates backend input into this fixed set of events (applying
//! its logical scale factor at translation, so coordinates here are
//! resolution-independent) and pushes them; `dispatch_events` drains the
//! queue, routing each event exactly once through the widget tree.
use vstd::prelude::*;

use crate::tree::{tree_matches, Tree, TreeModel};
use crate::widget::{layout_matches, update_spec, Element};
use crate::{node_bounded, Node, NodeModel, UpdateCtx};

verus! {

#[derive(Clone, Copy, Debug)]
pub enum MouseButton {
    Left,
    Right,
    Middle,
    Back,
    Forward,
    Other(u16),
}

/// One translated input event, in logical coordinates.
#[derive(Clone, Copy, Debug)]
pub enum Event {
    CursorMoved { x: i64, y: i64 },
    MousePress { button: MouseButton },
    MouseRelease { button: MouseButton },
}

/// An ordered buffer of translated events, fully drained by dispatch.
pub struct EventQueue {
    pub event_queue: Vec<Event>,
}

/// The result of routing `evs` in FIFO order through `root`, starting from
/// state tree `t`, each event with a fresh capture flag: the final state
/// tree, and every message emitted, in arrival order.
pub open spec fn dispatch_spec<MSG>(
    root: Element<MSG>,
    evs: Seq<Event>,
    lay: NodeModel,
    t: TreeModel,
) -> (TreeModel, Seq<MSG>)
    decreases evs.len(),
{
    if evs.len() == 0 {
        (t, Seq::empty())
    } else {
        let first = update_spec(root, evs[0], lay, t, false);
        let rest = dispatch_spec(root, evs.drop_first(), lay, first.tree);
        (rest.0, first.msgs + rest.1)
    }
}

impl EventQueue {
    pub fn new() -> (q: EventQueue)
        ensures
            q.event_queue@.len() == 0,
    {
        EventQueue { event_queue: Vec::new() }
    }

    /// Append one translated event; it will be routed by the next dispatch.
    pub fn push(&mut self, event: Event)
        ensures
            final(self).event_queue@ == old(self).event_queue@.push(event),
    {
        self.event_queue.push(event);
    }

    pub fn len(&self) -> (n: usize)
        ensures
            n == self.event_queue@.len(),
    {
        self.event_queue.len()
    }

    /// Drain the queue: every buffered event is routed exactly once, in
    /// FIFO order, through `root` against this frame's layout; each event
    /// starts with a fresh capture flag, and the messages it produces are
    /// appended to `messages` in order. The queue is empty afterwards.
    pub fn dispatch_events<MSG: Copy>(
        &mut self,
        messages: &mut Vec<MSG>,
        root: &Element<MSG>,
        tree: &mut Tree,
        layout: &Node,
    )
        requires
            tree_matches(*root, old(tree)@),
            layout_matches(*root, layout@),
            node_bounded(layout@),
        ensures
            final(self).event_queue@.len() == 0,
            final(tree)@ == dispatch_spec(*root, old(self).event_queue@, layout@, old(tree)@).0,
            final(messages)@ == old(messages)@ + dispatch_spec(
                *root,
                old(self).event_queue@,
                layout@,
                old(tree)@,
            ).1,
            tree_matches(*root, final(tree)@),
    {
        let ghost evs = self.event_queue@;
        let ghost t0 = tree@;
        let ghost m0 = messages@;
        let ghost mut done: Seq<MSG> = Seq::empty();
        let mut i: usize = 0;
        let n = self.event_queue.len();
        proof {
            assert(evs.skip(0) =~= evs);
            assert(Seq::<MSG>::empty() + dispatch_spec(*root, evs, layout@, t0).1
                =~= dispatch_spec(*root, evs, layout@, t0).1);
        }
        while i < n
            invariant
                layout_matches(*root, layout@),
                node_bounded(layout@),
                tree_matches(*root, tree@),
                n == evs.len(),
                0 <= i <= n,
                self.event_queue@ == evs,
                messages@ == m0 + done,
                dispatch_spec(*root, evs, layout@, t0).0 == dispatch_spec(
                    *root,
                    evs.skip(i as int),
                    layout@,
                    tree@,
                ).0,
                dispatch_spec(*root, evs, layout@, t0).1 == done + dispatch_spec(
                    *root,
                    evs.skip(i as int),
                    layout@,
                    tree@,
                ).1,
            decreases n - i,
        {
            let ev = self.event_queue[i];
            let mut ctx: UpdateCtx<MSG> = UpdateCtx { messages: Vec::new(), event_captured: false };
            let ghost t_before = tree@;
            root.update(&ev, layout, tree, &mut ctx);
            proof {
                crate::widget::lemma_update_preserves_match(*root, ev, layout@, t_before, false);
            }
            let ghost emitted = ctx.messages@;
            messages.append(&mut ctx.messages);
            proof {
                let rem = evs.skip(i as int);
                assert(rem[0] == ev);
                assert(rem.drop_first() =~= evs.skip(i + 1));
                let first = update_spec(*root, ev, layout@, t_before, false);
                assert(emitted =~= first.msgs);
                let done_old = done;
                done = done + first.msgs;
                assert(messages@ =~= m0 + done);
                assert(done_old + dispatch_spec(*root, rem, layout@, t_before).1 =~= done
                    + dispatch_spec(*root, evs.skip(i + 1), layout@, tree@).1);
            }
            i = i + 1;
        }
        self.event_queue.clear();
        proof {
            assert(evs.skip(n as int) =~= Seq::<Event>::empty());
        }
    }
}

} // verus!
