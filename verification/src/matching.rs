//! What it means for a pattern to match a node: the rules, as functions on views.
//!
//! A match walks the children of the pattern (the goals) and the children of the node (the
//! candidates) from left to right. Every goal is placed on a candidate of its own, in order.
//! An ellipsis takes the shortest run of candidates after which the next goal matches;
//! anonymous candidates between two goals may be passed over, named ones may not.
//! A list without candidates matches no list of goals. An ellipsis that is the last goal takes
//! the empty run where the goals before it have used the candidates up.

use vstd::prelude::*;
use crate::meta_var::{Bindings, MetaVariableView};
use crate::node::NodeView;
use crate::pattern::PatternView;

verus! {

/// Whether two nodes denote the same content.
///
/// A node equals itself. Where one of the two is a named leaf, the source texts decide.
/// Otherwise the kinds agree and the children are equal one by one, in order.
pub open spec fn exactly_equal(a: NodeView, b: NodeView) -> bool
    decreases a,
{
    if a.id == b.id {
        true
    } else if a.is_named_leaf() || b.is_named_leaf() {
        a.text == b.text
    } else {
        &&& a.kind == b.kind
        &&& a.children.len() == b.children.len()
        &&& forall|i: int| 0 <= i < a.children.len() ==> exactly_equal(#[trigger] a.children[i], b.children[i])
    }
}

/// A placeholder against one node. A capture demands a named node where its flag is set and
/// binds the node; a named ellipsis met outside a list of siblings binds the node as a run of one.
/// The unnamed ellipsis means something among siblings only: the matcher takes none as a goal
/// of its own, and here it stands for a match that binds nothing.
pub open spec fn match_leaf(meta_var: MetaVariableView, cand: NodeView, env: Bindings) -> Option<Bindings> {
    match meta_var {
        MetaVariableView::Capture(name, named) => if named && !cand.named {
            None
        } else {
            env.insert(name, cand)
        },
        MetaVariableView::Dropped(named) => if named && !cand.named {
            None
        } else {
            Some(env)
        },
        MetaVariableView::Multiple => Some(env),
        MetaVariableView::MultiCapture(name) => Some(env.insert_multi(name, seq![cand])),
    }
}

/// A pattern against one node: the bindings after the match, or `None` where there is no match.
pub open spec fn match_node(goal: PatternView, cand: NodeView, env: Bindings) -> Option<Bindings>
    decreases goal, 0nat, 0nat,
{
    match goal {
        PatternView::Terminal { text, kind, .. } => if kind == cand.kind && text == cand.text {
            Some(env)
        } else {
            None
        },
        PatternView::MetaVar { meta_var } => match_leaf(meta_var, cand, env),
        PatternView::Internal { kind, children } => if kind == cand.kind {
            match_children(children, 0, cand.children, 0, env)
        } else {
            None
        },
    }
}

/// What one run of the matcher on `goal`, `cand` and the environment `before` leaves behind:
/// where they match, the bindings of the match; where they do not, the environment untouched.
pub open spec fn match_outcome(
    goal: PatternView,
    cand: NodeView,
    before: Bindings,
    matched: bool,
    after: Bindings,
) -> bool {
    match match_node(goal, cand, before) {
        Some(bound) => matched && after == bound,
        None => !matched && after == before,
    }
}

/// The first place at or after `i` whose goal is not an anonymous token; the number of goals
/// where there is none.
pub open spec fn skip_trivial(goals: Seq<PatternView>, i: int) -> int
    decreases goals.len() - i,
{
    if 0 <= i < goals.len() && goals[i].is_trivial() {
        skip_trivial(goals, i + 1)
    } else {
        i
    }
}

/// The first candidate at or after `j` that `goal` matches, with the bindings of that match.
/// A candidate that does not match is passed over if `any` is set or if it is anonymous;
/// a named one that may not be passed over ends the search.
pub open spec fn scan_match(goal: PatternView, cands: Seq<NodeView>, j: int, env: Bindings, any: bool) -> Option<
    (int, Bindings),
>
    decreases goal, cands.len() - j + 1, 0nat,
{
    if 0 <= j < cands.len() {
        match match_node(goal, cands[j], env) {
            Some(bound) => Some((j, bound)),
            None => if any || !cands[j].named {
                scan_match(goal, cands, j + 1, env, any)
            } else {
                None
            },
        }
    } else {
        None
    }
}

/// The goals from `i` on, once the goals before them have used the candidates up: an ellipsis
/// that is the last goal takes the empty run, any other goal is left without a candidate.
pub open spec fn match_exhausted(goals: Seq<PatternView>, i: int, env: Bindings) -> Option<Bindings> {
    if 0 <= i && i + 1 == goals.len() && goals[i].is_ellipsis() {
        Some(env.bind_ellipsis(goals[i].ellipsis_name(), Seq::empty(), 0))
    } else {
        None
    }
}

/// The goals from `i` on against the candidates from `j` on, of which there is at least one.
///
/// An ellipsis followed by nothing but anonymous tokens takes all the candidates that are left.
/// One followed, after such tokens, by another ellipsis takes exactly one candidate. One
/// followed by any other goal takes the candidates before the first that this goal matches.
/// The run it binds leaves out one node for each anonymous token passed over behind it.
pub open spec fn match_children(
    goals: Seq<PatternView>,
    i: int,
    cands: Seq<NodeView>,
    j: int,
    env: Bindings,
) -> Option<Bindings>
    decreases goals, goals.len() - i, 1nat,
{
    if !(0 <= i < goals.len() && 0 <= j < cands.len()) {
        None
    } else if goals[i].is_ellipsis() {
        let name = goals[i].ellipsis_name();
        let k = skip_trivial(goals, i + 1);
        let skipped = (k - (i + 1)) as nat;
        if !(i < k < goals.len()) {
            Some(env.bind_ellipsis(name, cands.skip(j), skipped))
        } else if goals[k].is_ellipsis() {
            let bound = env.bind_ellipsis(name, seq![cands[j]], skipped);
            if j + 1 < cands.len() {
                match_children(goals, k, cands, j + 1, bound)
            } else {
                match_exhausted(goals, k, bound)
            }
        } else {
            match scan_match(goals[k], cands, j, env, true) {
                Some((found, bound)) => match_child(
                    goals,
                    k,
                    cands,
                    found,
                    bound.bind_ellipsis(name, cands.subrange(j, found), skipped),
                ),
                None => None,
            }
        }
    } else {
        match_child(goals, i, cands, j, env)
    }
}

/// The goal at `k`, which is no ellipsis, placed on the first candidate from `j` on that it
/// matches and that only anonymous candidates come before; then the goals behind it against
/// the candidates behind that one. When no goal is left the match is made, whatever
/// candidates are left; when no candidate is left `match_exhausted` decides.
pub open spec fn match_child(
    goals: Seq<PatternView>,
    k: int,
    cands: Seq<NodeView>,
    j: int,
    env: Bindings,
) -> Option<Bindings>
    decreases goals, goals.len() - k, 0nat,
{
    if !(0 <= k < goals.len()) {
        None
    } else {
        match scan_match(goals[k], cands, j, env, false) {
            Some((found, bound)) => if k + 1 == goals.len() {
                Some(bound)
            } else if found + 1 < cands.len() {
                match_children(goals, k + 1, cands, found + 1, bound)
            } else {
                match_exhausted(goals, k + 1, bound)
            },
            None => None,
        }
    }
}

/// The end of a placeholder's match on one node: the end of the node, where the placeholder
/// takes the node. A placeholder that demands a named node takes no anonymous one, as in
/// `match_leaf`; no name is bound, so no name stands in the way.
pub open spec fn end_leaf(meta_var: MetaVariableView, cand: NodeView) -> Option<usize> {
    match meta_var {
        MetaVariableView::Capture(_, named) => if named && !cand.named {
            None
        } else {
            Some(cand.end)
        },
        MetaVariableView::Dropped(named) => if named && !cand.named {
            None
        } else {
            Some(cand.end)
        },
        MetaVariableView::Multiple => Some(cand.end),
        MetaVariableView::MultiCapture(_) => Some(cand.end),
    }
}

/// The end of the span that a pattern matches in a node: the byte offset just past the last
/// node that the match takes in. The rules are those of `match_node`, but that nothing is
/// bound and so no binding can fail.
pub open spec fn match_end(goal: PatternView, cand: NodeView) -> Option<usize>
    decreases goal, 0nat, 0nat,
{
    match goal {
        PatternView::Terminal { text, kind, .. } => if kind == cand.kind && text == cand.text {
            Some(cand.end)
        } else {
            None
        },
        PatternView::MetaVar { meta_var } => end_leaf(meta_var, cand),
        PatternView::Internal { kind, children } => if kind == cand.kind {
            end_children(children, 0, cand.children, 0)
        } else {
            None
        },
    }
}

/// The first candidate at or after `j` that `goal` matches, with the end of that match.
/// Candidates are passed over as in `scan_match`.
pub open spec fn scan_end(goal: PatternView, cands: Seq<NodeView>, j: int, any: bool) -> Option<(int, usize)>
    decreases goal, cands.len() - j + 1, 0nat,
{
    if 0 <= j < cands.len() {
        match match_end(goal, cands[j]) {
            Some(end) => Some((j, end)),
            None => if any || !cands[j].named {
                scan_end(goal, cands, j + 1, any)
            } else {
                None
            },
        }
    } else {
        None
    }
}

/// The end of the match once the candidates are used up and the goals from `i` on are left:
/// `end`, the end reached so far, where the only goal left is an ellipsis.
pub open spec fn end_exhausted(goals: Seq<PatternView>, i: int, end: usize) -> Option<usize> {
    if 0 <= i && i + 1 == goals.len() && goals[i].is_ellipsis() {
        Some(end)
    } else {
        None
    }
}

/// The end of the match of the goals from `i` on against the candidates from `j` on, placed
/// as in `match_children`. An ellipsis that takes all the candidates left ends with the last.
pub open spec fn end_children(goals: Seq<PatternView>, i: int, cands: Seq<NodeView>, j: int) -> Option<usize>
    decreases goals, goals.len() - i, 1nat,
{
    if !(0 <= i < goals.len() && 0 <= j < cands.len()) {
        None
    } else if goals[i].is_ellipsis() {
        let k = skip_trivial(goals, i + 1);
        if !(i < k < goals.len()) {
            Some(cands.last().end)
        } else if goals[k].is_ellipsis() {
            if j + 1 < cands.len() {
                end_children(goals, k, cands, j + 1)
            } else {
                end_exhausted(goals, k, cands[j].end)
            }
        } else {
            match scan_end(goals[k], cands, j, true) {
                Some((found, _)) => end_child(goals, k, cands, found),
                None => None,
            }
        }
    } else {
        end_child(goals, i, cands, j)
    }
}

/// The end of the match that places the goal at `k` as in `match_child`.
pub open spec fn end_child(goals: Seq<PatternView>, k: int, cands: Seq<NodeView>, j: int) -> Option<usize>
    decreases goals, goals.len() - k, 0nat,
{
    if !(0 <= k < goals.len()) {
        None
    } else {
        match scan_end(goals[k], cands, j, false) {
            Some((found, end)) => if k + 1 == goals.len() {
                Some(end)
            } else if found + 1 < cands.len() {
                end_children(goals, k + 1, cands, found + 1)
            } else {
                end_exhausted(goals, k + 1, end)
            },
            None => None,
        }
    }
}

} // verus!
