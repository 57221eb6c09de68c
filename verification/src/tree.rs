//! The persistent state tree: one node of interaction state per widget,
//! paired with the widget tree positionally and surviving across frames
//! while the widget tree itself is rebuilt every frame.
use vstd::prelude::*;

use crate::widget::Element;

verus! {

/// Per-widget interaction state. Leaf widgets use the flags; containers
/// only carry children.
pub struct Tree {
    pub hovered: bool,
    pub pressed: bool,
    pub children: Vec<Tree>,
}

/// Mathematical model of a state tree.
#[verifier::ext_equal]
pub struct TreeModel {
    pub hovered: bool,
    pub pressed: bool,
    pub children: Seq<TreeModel>,
}

pub open spec fn tree_model(t: Tree) -> TreeModel
    decreases t, 1int,
{
    TreeModel { hovered: t.hovered, pressed: t.pressed, children: trees_model(t.children@) }
}

pub open spec fn trees_model(ts: Seq<Tree>) -> Seq<TreeModel>
    decreases ts, 0int,
{
    if ts.len() == 0 {
        Seq::empty()
    } else {
        seq![tree_model(ts[0])] + trees_model(ts.drop_first())
    }
}

impl View for Tree {
    type V = TreeModel;

    open spec fn view(&self) -> TreeModel {
        tree_model(*self)
    }
}

/// `trees_model` maps positionally: same length, element by element.
pub proof fn lemma_trees_model_index(ts: Seq<Tree>)
    ensures
        trees_model(ts).len() == ts.len(),
        forall|i: int| 0 <= i < ts.len() ==> trees_model(ts)[i] == tree_model(ts[i]),
    decreases ts.len(),
{
    if ts.len() > 0 {
        lemma_trees_model_index(ts.drop_first());
        assert forall|i: int| 0 <= i < ts.len() implies trees_model(ts)[i] == tree_model(
            ts[i],
        ) by {
            if i > 0 {
                assert(trees_model(ts)[i] == trees_model(ts.drop_first())[i - 1]);
                assert(ts.drop_first()[i - 1] == ts[i]);
            }
        }
    }
}

/// The state tree has exactly the shape of the widget tree: same child
/// count at every position, in the same order.
pub open spec fn tree_matches<MSG>(e: Element<MSG>, t: TreeModel) -> bool
    decreases e, 1int,
{
    trees_match(e.children@, t.children)
}

pub open spec fn trees_match<MSG>(cs: Seq<Element<MSG>>, ts: Seq<TreeModel>) -> bool
    decreases cs, 0int,
{
    if cs.len() != ts.len() {
        false
    } else if cs.len() == 0 {
        true
    } else {
        tree_matches(cs[0], ts[0]) && trees_match(cs.drop_first(), ts.drop_first())
    }
}

/// Matching runs of siblings match position by position.
pub proof fn lemma_trees_match_index<MSG>(cs: Seq<Element<MSG>>, ts: Seq<TreeModel>, i: int)
    requires
        trees_match(cs, ts),
        0 <= i < cs.len(),
    ensures
        tree_matches(cs[i], ts[i]),
    decreases i,
{
    if i > 0 {
        lemma_trees_match_index(cs.drop_first(), ts.drop_first(), i - 1);
    }
}

/// A fresh, all-idle state node for each widget of `e`, mirroring its shape.
pub open spec fn fresh_tree_spec<MSG>(e: Element<MSG>) -> TreeModel
    decreases e, 1int,
{
    TreeModel { hovered: false, pressed: false, children: fresh_trees_spec(e.children@) }
}

pub open spec fn fresh_trees_spec<MSG>(cs: Seq<Element<MSG>>) -> Seq<TreeModel>
    decreases cs, 0int,
{
    if cs.len() == 0 {
        Seq::empty()
    } else {
        seq![fresh_tree_spec(cs[0])] + fresh_trees_spec(cs.drop_first())
    }
}

/// Positional reconciliation: state at positions that still exist is kept
/// (and reconciled recursively), state of removed children is dropped, and
/// added children get fresh state.
pub open spec fn diff_spec<MSG>(e: Element<MSG>, t: TreeModel) -> TreeModel
    decreases e, 1int,
{
    TreeModel {
        hovered: t.hovered,
        pressed: t.pressed,
        children: diffs_spec(e.children@, t.children),
    }
}

pub open spec fn diffs_spec<MSG>(cs: Seq<Element<MSG>>, ts: Seq<TreeModel>) -> Seq<TreeModel>
    decreases cs, 0int,
{
    if cs.len() == 0 {
        Seq::empty()
    } else if ts.len() == 0 {
        seq![fresh_tree_spec(cs[0])] + diffs_spec(cs.drop_first(), ts)
    } else {
        seq![diff_spec(cs[0], ts[0])] + diffs_spec(cs.drop_first(), ts.drop_first())
    }
}

/// A fresh tree matches the widget it was built for.
pub proof fn lemma_fresh_matches<MSG>(e: Element<MSG>)
    ensures
        tree_matches(e, fresh_tree_spec(e)),
    decreases e, 1int,
{
    lemma_freshes_match(e.children@);
}

pub proof fn lemma_freshes_match<MSG>(cs: Seq<Element<MSG>>)
    ensures
        trees_match(cs, fresh_trees_spec(cs)),
        fresh_trees_spec(cs).len() == cs.len(),
    decreases cs, 0int,
{
    if cs.len() > 0 {
        lemma_fresh_matches(cs[0]);
        lemma_freshes_match(cs.drop_first());
        assert(fresh_trees_spec(cs).drop_first() =~= fresh_trees_spec(cs.drop_first()));
    }
}

/// Reconciling any state tree against `e` yields one that matches `e`.
pub proof fn lemma_diff_matches<MSG>(e: Element<MSG>, t: TreeModel)
    ensures
        tree_matches(e, diff_spec(e, t)),
    decreases e, 1int,
{
    lemma_diffs_match(e.children@, t.children);
}

pub proof fn lemma_diffs_match<MSG>(cs: Seq<Element<MSG>>, ts: Seq<TreeModel>)
    ensures
        trees_match(cs, diffs_spec(cs, ts)),
        diffs_spec(cs, ts).len() == cs.len(),
    decreases cs, 0int,
{
    if cs.len() > 0 {
        if ts.len() == 0 {
            lemma_fresh_matches(cs[0]);
            lemma_diffs_match(cs.drop_first(), ts);
            assert(diffs_spec(cs, ts).drop_first() =~= diffs_spec(cs.drop_first(), ts));
        } else {
            lemma_diff_matches(cs[0], ts[0]);
            lemma_diffs_match(cs.drop_first(), ts.drop_first());
            assert(diffs_spec(cs, ts).drop_first() =~= diffs_spec(
                cs.drop_first(),
                ts.drop_first(),
            ));
        }
    }
}

impl Tree {
    /// A fresh, all-idle state tree mirroring the shape of `e`; built on
    /// first use, before the first layout pass.
    pub fn new_for<MSG: Copy>(e: &Element<MSG>) -> (t: Tree)
        ensures
            t@ == fresh_tree_spec(*e),
            tree_matches(*e, t@),
        decreases *e, 1int,
    {
        let children = fresh_children(&e.children, 0);
        let t = Tree { hovered: false, pressed: false, children };
        proof {
            assert(e.children@.skip(0) =~= e.children@);
            assert(t@ =~= fresh_tree_spec(*e));
            lemma_fresh_matches(*e);
        }
        t
    }

    /// Reconcile this state tree with the widget tree `e`, pairing children
    /// positionally: keep and recursively reconcile state at positions that
    /// still exist, drop state of removed children, create fresh state for
    /// added ones.
    pub fn diff<MSG: Copy>(&mut self, e: &Element<MSG>)
        ensures
            final(self)@ == diff_spec(*e, old(self)@),
            tree_matches(*e, final(self)@),
        decreases *e, 1int,
    {
        let mut ts: Vec<Tree> = Vec::new();
        core::mem::swap(&mut self.children, &mut ts);
        let ghost ts_old = ts@;
        let new_children = diff_children(&e.children, 0, ts);
        self.children = new_children;
        proof {
            assert(e.children@.skip(0) =~= e.children@);
            assert(trees_model(ts_old) == old(self)@.children);
            assert(self@ =~= diff_spec(*e, old(self)@));
            lemma_diff_matches(*e, old(self)@);
        }
    }
}

fn fresh_children<MSG: Copy>(cs: &Vec<Element<MSG>>, i: usize) -> (out: Vec<Tree>)
    requires
        i <= cs@.len(),
    ensures
        trees_model(out@) == fresh_trees_spec(cs@.skip(i as int)),
        out@.len() == cs@.len() - i,
    decreases cs@, cs@.len() - i,
{
    if i == cs.len() {
        let out: Vec<Tree> = Vec::new();
        proof {
            assert(cs@.skip(i as int) =~= Seq::<Element<MSG>>::empty());
            assert(trees_model(out@) =~= fresh_trees_spec(cs@.skip(i as int)));
        }
        out
    } else {
        let t = Tree::new_for(&cs[i]);
        let ghost head = t;
        let mut rest = fresh_children(cs, i + 1);
        let ghost r0 = rest@;
        rest.insert(0, t);
        proof {
            let s = cs@.skip(i as int);
            assert(s[0] == cs@[i as int]);
            assert(s.drop_first() =~= cs@.skip(i + 1));
            assert(rest@[0] == head);
            assert(rest@.drop_first() =~= r0);
            assert(trees_model(rest@) == seq![tree_model(head)] + trees_model(r0));
            assert(trees_model(rest@) =~= fresh_trees_spec(s));
        }
        rest
    }
}

fn diff_children<MSG: Copy>(cs: &Vec<Element<MSG>>, i: usize, ts: Vec<Tree>) -> (out: Vec<Tree>)
    requires
        i <= cs@.len(),
    ensures
        trees_model(out@) == diffs_spec(cs@.skip(i as int), trees_model(ts@)),
        out@.len() == cs@.len() - i,
    decreases cs@, cs@.len() - i,
{
    if i == cs.len() {
        let out: Vec<Tree> = Vec::new();
        proof {
            assert(cs@.skip(i as int) =~= Seq::<Element<MSG>>::empty());
            assert(trees_model(out@) =~= diffs_spec(cs@.skip(i as int), trees_model(ts@)));
        }
        out
    } else if ts.len() > 0 {
        let ghost ts0 = ts@;
        let mut ts = ts;
        let mut t0 = ts.remove(0);
        proof {
            assert(ts@ =~= ts0.drop_first());
            assert(trees_model(ts0) == seq![tree_model(ts0[0])] + trees_model(ts0.drop_first()));
            assert(trees_model(ts0).drop_first() =~= trees_model(ts0.drop_first()));
            assert(trees_model(ts0)[0] == tree_model(ts0[0]));
        }
        t0.diff(&cs[i]);
        let ghost head = t0;
        let mut rest = diff_children(cs, i + 1, ts);
        let ghost r0 = rest@;
        rest.insert(0, t0);
        proof {
            let s = cs@.skip(i as int);
            assert(s[0] == cs@[i as int]);
            assert(s.drop_first() =~= cs@.skip(i + 1));
            assert(rest@[0] == head);
            assert(rest@.drop_first() =~= r0);
            assert(trees_model(rest@) == seq![tree_model(head)] + trees_model(r0));
            assert(trees_model(rest@) =~= diffs_spec(s, trees_model(ts0)));
        }
        rest
    } else {
        let t0 = Tree::new_for(&cs[i]);
        let ghost head = t0;
        let mut rest = diff_children(cs, i + 1, ts);
        let ghost r0 = rest@;
        rest.insert(0, t0);
        proof {
            let s = cs@.skip(i as int);
            assert(s[0] == cs@[i as int]);
            assert(s.drop_first() =~= cs@.skip(i + 1));
            assert(trees_model(ts@) =~= Seq::<TreeModel>::empty());
            assert(rest@[0] == head);
            assert(rest@.drop_first() =~= r0);
            assert(trees_model(rest@) == seq![tree_model(head)] + trees_model(r0));
            assert(trees_model(rest@) =~= diffs_spec(s, trees_model(ts@)));
        }
        rest
    }
}

} // verus!
