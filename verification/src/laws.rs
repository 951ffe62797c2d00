//! What holds of every match.

use vstd::prelude::*;
use crate::matching::{
    end_child, end_children, end_leaf, exactly_equal, match_child, match_children, match_end,
    match_leaf, match_node, match_outcome, scan_end, scan_match, skip_trivial,
};
use crate::meta_var::{Bindings, MetaVariableView};
use crate::node::{NodeView, in_source_order};
use crate::pattern::PatternView;

verus! {

/// A token matches a node if and only if the node has the token's kind and the token's text;
/// the match binds nothing.
pub proof fn lemma_terminal_match(goal: PatternView, cand: NodeView, env: Bindings)
    requires
        goal is Terminal,
    ensures
        match_node(goal, cand, env) is Some <==> (cand.kind == goal->Terminal_kind && cand.text
            == goal->Terminal_text),
        match_node(goal, cand, env) is Some ==> match_node(goal, cand, env) == Some(env),
        match_end(goal, cand) is Some <==> match_node(goal, cand, env) is Some,
        match_end(goal, cand) is Some ==> match_end(goal, cand) == Some(cand.end),
{
}

/// Matching is a function of the pattern, the candidate and the base environment: two runs
/// on the same three agree on whether there is a match and on the environment they leave, and
/// a run without a match leaves the base environment.
pub proof fn lemma_match_is_a_function(
    goal: PatternView,
    cand: NodeView,
    env: Bindings,
    first: (bool, Bindings),
    second: (bool, Bindings),
)
    requires
        match_outcome(goal, cand, env, first.0, first.1),
        match_outcome(goal, cand, env, second.0, second.1),
    ensures
        first == second,
        !first.0 ==> first.1 == env,
{
}

/// A placeholder that demands a named node matches no anonymous node. One that does not, or
/// one against a named node, matches whenever its name is free to take the node.
pub proof fn lemma_named_gate(name: Seq<char>, must_be_named: bool, cand: NodeView, env: Bindings)
    ensures
        must_be_named && !cand.named ==> {
            &&& match_leaf(MetaVariableView::Capture(name, must_be_named), cand, env) is None
            &&& match_leaf(MetaVariableView::Dropped(must_be_named), cand, env) is None
        },
        !must_be_named || cand.named ==> {
            &&& match_leaf(MetaVariableView::Capture(name, must_be_named), cand, env) == env.insert(name, cand)
            &&& match_leaf(MetaVariableView::Dropped(must_be_named), cand, env) == Some(env)
        },
        !env.single.contains_key(name) ==> env.insert(name, cand) is Some,
        must_be_named && !cand.named ==> {
            &&& end_leaf(MetaVariableView::Capture(name, must_be_named), cand) is None
            &&& end_leaf(MetaVariableView::Dropped(must_be_named), cand) is None
        },
        !must_be_named || cand.named ==> {
            &&& end_leaf(MetaVariableView::Capture(name, must_be_named), cand) == Some(cand.end)
            &&& end_leaf(MetaVariableView::Dropped(must_be_named), cand) == Some(cand.end)
        },
{
}

/// On a goal that is a token or a placeholder, the end matcher finds an end exactly where
/// the matcher that binds finds a match from an environment that binds nothing.
pub proof fn lemma_leaf_end_agrees(goal: PatternView, cand: NodeView)
    requires
        !(goal is Internal),
    ensures
        match_end(goal, cand) is Some <==> match_node(goal, cand, Bindings::empty()) is Some,
        match_end(goal, cand) is Some ==> match_end(goal, cand) == Some(cand.end),
{
}

/// A name that holds a node takes a second node if and only if the two are exactly equal,
/// and then holds the second.
pub proof fn lemma_non_linear(name: Seq<char>, first: NodeView, second: NodeView, env: Bindings)
    requires
        env.insert(name, first) is Some,
    ensures
        env.insert(name, first).unwrap().insert(name, second) is Some <==> exactly_equal(first, second),
        exactly_equal(first, second) ==> env.insert(name, first).unwrap().insert(name, second).unwrap().single[name]
            == second,
{
}

/// Every node is exactly equal to itself.
pub proof fn lemma_exactly_equal_reflexive(a: NodeView)
    ensures
        exactly_equal(a, a),
{
}

/// Exact equality does not depend on the order of the two nodes.
pub proof fn lemma_exactly_equal_symmetric(a: NodeView, b: NodeView)
    ensures
        exactly_equal(a, b) == exactly_equal(b, a),
    decreases a,
{
    if a.id != b.id && !(a.is_named_leaf() || b.is_named_leaf()) && a.kind == b.kind && a.children.len()
        == b.children.len() {
        assert forall|i: int| 0 <= i < a.children.len() implies exactly_equal(a.children[i], b.children[i])
            == exactly_equal(b.children[i], a.children[i]) by {
            lemma_exactly_equal_symmetric(a.children[i], b.children[i]);
        }
    }
}

/// Where one of two nodes is a named leaf, the nodes are exactly equal as soon as their texts
/// are the same, whatever their kinds and whatever anonymous children one has and the other lacks.
pub proof fn lemma_named_leaf_equal_by_text(a: NodeView, b: NodeView)
    requires
        a.is_named_leaf() || b.is_named_leaf(),
    ensures
        a.text == b.text ==> exactly_equal(a, b),
        exactly_equal(a, b) <==> (a.id == b.id || a.text == b.text),
{
}

/// An ellipsis is lazy and candidates of weight are never passed over: the candidate on which
/// a search ends is the first that the goal matches, and where the search may pass over
/// anonymous candidates only, every candidate before that one is anonymous.
pub proof fn lemma_scan_finds_first(goal: PatternView, cands: Seq<NodeView>, j: int, env: Bindings, any: bool)
    requires
        scan_match(goal, cands, j, env, any) is Some,
    ensures
        ({
            let (found, bound) = scan_match(goal, cands, j, env, any).unwrap();
            &&& 0 <= j <= found < cands.len()
            &&& match_node(goal, cands[found], env) == Some(bound)
            &&& forall|x: int| j <= x < found ==> match_node(goal, #[trigger] cands[x], env) is None
            &&& !any ==> forall|x: int| j <= x < found ==> !(#[trigger] cands[x]).named
        }),
    decreases cands.len() - j,
{
    if match_node(goal, cands[j], env) is None {
        lemma_scan_finds_first(goal, cands, j + 1, env, any);
    }
}

/// `skip_trivial` passes over anonymous tokens and over nothing else.
pub proof fn lemma_skip_trivial(goals: Seq<PatternView>, i: int)
    requires
        0 <= i <= goals.len(),
    ensures
        i <= skip_trivial(goals, i) <= goals.len(),
        forall|k: int| i <= k < skip_trivial(goals, i) ==> (#[trigger] goals[k]).is_trivial(),
        skip_trivial(goals, i) < goals.len() ==> !goals[skip_trivial(goals, i)].is_trivial(),
    decreases goals.len() - i,
{
    if i < goals.len() && goals[i].is_trivial() {
        lemma_skip_trivial(goals, i + 1);
    }
}

/// An ellipsis that is the only goal takes every candidate, and a named one binds them all.
pub proof fn lemma_sole_ellipsis_takes_all(goal: PatternView, cands: Seq<NodeView>, env: Bindings)
    requires
        goal.is_ellipsis(),
        cands.len() > 0,
    ensures
        match_children(seq![goal], 0, cands, 0, env) == Some(env.bind_ellipsis(goal.ellipsis_name(), cands, 0)),
        end_children(seq![goal], 0, cands, 0) == Some(cands.last().end),
{
    let goals = seq![goal];
    assert(skip_trivial(goals, 1) == 1);
    assert(cands.skip(0) =~= cands);
}

/// A list without candidates matches no list of goals.
pub proof fn lemma_no_candidates_no_match(goals: Seq<PatternView>, env: Bindings)
    ensures
        match_children(goals, 0, Seq::empty(), 0, env) is None,
        end_children(goals, 0, Seq::empty(), 0) is None,
{
}

/// A span within a well-formed node ends within the node.
pub proof fn lemma_ends_within_bounds(cand: NodeView, end: usize)
    requires
        cand.well_formed(),
        cand.ends_within(end),
    ensures
        cand.start <= end <= cand.end,
    decreases cand,
{
    if cand.end != end {
        let i = choose|i: int| 0 <= i < cand.children.len() && (#[trigger] cand.children[i]).ends_within(end);
        lemma_ends_within_bounds(cand.children[i], end);
    }
}

/// The end of a match is the end of the candidate or of a node below it, and so, in a
/// well-formed tree, lies within the candidate. A token or a placeholder ends with the candidate.
pub proof fn lemma_match_end_within(goal: PatternView, cand: NodeView)
    requires
        match_end(goal, cand) is Some,
    ensures
        cand.ends_within(match_end(goal, cand).unwrap()),
        cand.well_formed() ==> cand.start <= match_end(goal, cand).unwrap() <= cand.end,
        !(goal is Internal) ==> match_end(goal, cand) == Some(cand.end),
    decreases goal, 0nat, 0nat,
{
    if let PatternView::Internal { kind, children } = goal {
        lemma_end_children_within(children, 0, cand.children, 0);
    }
    if cand.well_formed() {
        lemma_ends_within_bounds(cand, match_end(goal, cand).unwrap());
    }
}

/// The end of a match of siblings is the end of one of them or of a node below one of them.
pub proof fn lemma_end_children_within(goals: Seq<PatternView>, i: int, cands: Seq<NodeView>, j: int)
    requires
        end_children(goals, i, cands, j) is Some,
    ensures
        exists|x: int|
            0 <= x < cands.len() && (#[trigger] cands[x]).ends_within(end_children(goals, i, cands, j).unwrap()),
    decreases goals, goals.len() - i, 1nat,
{
    let end = end_children(goals, i, cands, j).unwrap();
    if goals[i].is_ellipsis() {
        let k = skip_trivial(goals, i + 1);
        if !(i < k < goals.len()) {
            assert(cands[cands.len() - 1].ends_within(end));
        } else if goals[k].is_ellipsis() {
            if j + 1 < cands.len() {
                lemma_end_children_within(goals, k, cands, j + 1);
            } else {
                assert(cands[j].ends_within(end));
            }
        } else {
            let (found, _) = scan_end(goals[k], cands, j, true).unwrap();
            lemma_end_child_within(goals, k, cands, found);
        }
    } else {
        lemma_end_child_within(goals, i, cands, j);
    }
}

/// In a run of well-formed siblings that stand in source order, a match ends no later than
/// the last of them.
pub proof fn lemma_end_children_bounded(goals: Seq<PatternView>, i: int, cands: Seq<NodeView>, j: int)
    requires
        end_children(goals, i, cands, j) is Some,
        forall|x: int| 0 <= x < cands.len() ==> (#[trigger] cands[x]).well_formed(),
        in_source_order(cands),
    ensures
        cands.len() > 0,
        cands.first().start <= end_children(goals, i, cands, j).unwrap() <= cands.last().end,
{
    let end = end_children(goals, i, cands, j).unwrap();
    lemma_end_children_within(goals, i, cands, j);
    let x = choose|x: int| 0 <= x < cands.len() && (#[trigger] cands[x]).ends_within(end);
    lemma_ends_within_bounds(cands[x], end);
    assert(cands[x].well_formed());
    assert(cands[0].well_formed());
    assert(cands[cands.len() - 1].well_formed());
}

/// The same for the match that starts with a goal that is no ellipsis.
pub proof fn lemma_end_child_within(goals: Seq<PatternView>, k: int, cands: Seq<NodeView>, j: int)
    requires
        end_child(goals, k, cands, j) is Some,
    ensures
        exists|x: int|
            0 <= x < cands.len() && (#[trigger] cands[x]).ends_within(end_child(goals, k, cands, j).unwrap()),
    decreases goals, goals.len() - k, 0nat,
{
    lemma_scan_end_within(goals[k], cands, j, false);
    let (found, end) = scan_end(goals[k], cands, j, false).unwrap();
    if k + 1 == goals.len() {
        assert(cands[found].ends_within(end));
    } else if found + 1 < cands.len() {
        lemma_end_children_within(goals, k + 1, cands, found + 1);
    } else {
        assert(cands[found].ends_within(end));
    }
}

/// A search ends on a candidate at or after its start, with the end of the goal's match there.
pub proof fn lemma_scan_end_within(goal: PatternView, cands: Seq<NodeView>, j: int, any: bool)
    requires
        scan_end(goal, cands, j, any) is Some,
    ensures
        ({
            let (found, end) = scan_end(goal, cands, j, any).unwrap();
            &&& 0 <= j <= found < cands.len()
            &&& match_end(goal, cands[found]) == Some(end)
            &&& cands[found].ends_within(end)
        }),
    decreases goal, cands.len() - j + 1, 0nat,
{
    if match_end(goal, cands[j]) is Some {
        lemma_match_end_within(goal, cands[j]);
    } else {
        lemma_scan_end_within(goal, cands, j + 1, any);
    }
}

/// Whether no goal from `i` on is an ellipsis.
pub open spec fn no_ellipsis_from(goals: Seq<PatternView>, i: int) -> bool {
    forall|k: int| i <= k < goals.len() ==> !(#[trigger] goals[k]).is_ellipsis()
}

/// A search that ends on a candidate ends on the same one when more candidates follow.
pub proof fn lemma_scan_ignores_what_follows(
    goal: PatternView,
    cands: Seq<NodeView>,
    j: int,
    env: Bindings,
    any: bool,
    more: Seq<NodeView>,
)
    requires
        scan_match(goal, cands, j, env, any) is Some,
    ensures
        scan_match(goal, cands + more, j, env, any) == scan_match(goal, cands, j, env, any),
    decreases cands.len() - j,
{
    assert((cands + more)[j] == cands[j]);
    if match_node(goal, cands[j], env) is None {
        lemma_scan_ignores_what_follows(goal, cands, j + 1, env, any, more);
    }
}

/// Goals need not use the candidates up: where goals without an ellipsis among them match,
/// they match in the same way whatever candidates follow.
pub proof fn lemma_candidates_behind_are_ignored(
    goals: Seq<PatternView>,
    i: int,
    cands: Seq<NodeView>,
    j: int,
    env: Bindings,
    more: Seq<NodeView>,
)
    requires
        no_ellipsis_from(goals, i),
        match_children(goals, i, cands, j, env) is Some,
    ensures
        match_children(goals, i, cands + more, j, env) == match_children(goals, i, cands, j, env),
    decreases goals.len() - i,
{
    assert(!goals[i].is_ellipsis());
    assert(match_children(goals, i, cands, j, env) == match_child(goals, i, cands, j, env));
    lemma_scan_ignores_what_follows(goals[i], cands, j, env, false, more);
    let (found, bound) = scan_match(goals[i], cands, j, env, false).unwrap();
    if i + 1 < goals.len() {
        assert(!goals[i + 1].is_ellipsis());
        lemma_candidates_behind_are_ignored(goals, i + 1, cands, found + 1, bound, more);
    }
    assert(match_children(goals, i, cands + more, j, env) == match_child(goals, i, cands + more, j, env));
}

/// Every goal asks for a candidate of its own: goals without an ellipsis among them match
/// only where there are at least as many candidates as goals.
pub proof fn lemma_every_goal_needs_a_candidate(
    goals: Seq<PatternView>,
    i: int,
    cands: Seq<NodeView>,
    j: int,
    env: Bindings,
)
    requires
        no_ellipsis_from(goals, i),
        match_children(goals, i, cands, j, env) is Some,
    ensures
        goals.len() - i <= cands.len() - j,
    decreases goals.len() - i,
{
    assert(!goals[i].is_ellipsis());
    assert(match_children(goals, i, cands, j, env) == match_child(goals, i, cands, j, env));
    lemma_scan_finds_first(goals[i], cands, j, env, false);
    let (found, bound) = scan_match(goals[i], cands, j, env, false).unwrap();
    if i + 1 < goals.len() {
        assert(!goals[i + 1].is_ellipsis());
        lemma_every_goal_needs_a_candidate(goals, i + 1, cands, found + 1, bound);
    }
}

/// Where no goal is an ellipsis, a match ends where the match of its last goal ends: on one
/// of the candidates, at the end that this goal alone reaches there.
pub proof fn lemma_end_is_the_last_goals(goals: Seq<PatternView>, i: int, cands: Seq<NodeView>, j: int)
    requires
        no_ellipsis_from(goals, i),
        end_children(goals, i, cands, j) is Some,
    ensures
        exists|x: int|
            j <= x < cands.len() && match_end(goals.last(), #[trigger] cands[x]) == end_children(
                goals,
                i,
                cands,
                j,
            ),
    decreases goals.len() - i,
{
    assert(!goals[i].is_ellipsis());
    assert(end_children(goals, i, cands, j) == end_child(goals, i, cands, j));
    lemma_scan_end_within(goals[i], cands, j, false);
    let (found, end) = scan_end(goals[i], cands, j, false).unwrap();
    if i + 1 == goals.len() {
        assert(match_end(goals.last(), cands[found]) == Some(end));
    } else {
        assert(!goals[i + 1].is_ellipsis());
        lemma_end_is_the_last_goals(goals, i + 1, cands, found + 1);
        let x = choose|x: int|
            found + 1 <= x < cands.len() && match_end(goals.last(), #[trigger] cands[x]) == end_children(
                goals,
                i + 1,
                cands,
                found + 1,
            );
        assert(match_end(goals.last(), cands[x]) == end_children(goals, i, cands, j));
    }
}

/// Whether every name that `before` binds is bound in `after` too.
pub open spec fn keeps_names(before: Bindings, after: Bindings) -> bool {
    &&& before.single.dom().subset_of(after.single.dom())
    &&& before.multi.dom().subset_of(after.multi.dom())
}

/// A match unbinds no name.
pub proof fn lemma_match_keeps_names(goal: PatternView, cand: NodeView, env: Bindings)
    requires
        match_node(goal, cand, env) is Some,
    ensures
        keeps_names(env, match_node(goal, cand, env).unwrap()),
    decreases goal, 0nat, 0nat,
{
    if let PatternView::Internal { kind, children } = goal {
        lemma_children_keep_names(children, 0, cand.children, 0, env);
    }
}

/// A match of siblings unbinds no name.
pub proof fn lemma_children_keep_names(
    goals: Seq<PatternView>,
    i: int,
    cands: Seq<NodeView>,
    j: int,
    env: Bindings,
)
    requires
        match_children(goals, i, cands, j, env) is Some,
    ensures
        keeps_names(env, match_children(goals, i, cands, j, env).unwrap()),
    decreases goals, goals.len() - i, 1nat,
{
    if goals[i].is_ellipsis() {
        let name = goals[i].ellipsis_name();
        let k = skip_trivial(goals, i + 1);
        let skipped = (k - (i + 1)) as nat;
        if !(i < k < goals.len()) {
        } else if goals[k].is_ellipsis() {
            let bound = env.bind_ellipsis(name, seq![cands[j]], skipped);
            if j + 1 < cands.len() {
                lemma_children_keep_names(goals, k, cands, j + 1, bound);
            }
        } else {
            lemma_scan_keeps_names(goals[k], cands, j, env, true);
            let (found, bound) = scan_match(goals[k], cands, j, env, true).unwrap();
            lemma_child_keeps_names(goals, k, cands, found, bound.bind_ellipsis(name, cands.subrange(j, found), skipped));
        }
    } else {
        lemma_child_keeps_names(goals, i, cands, j, env);
    }
}

/// The same for the match that starts with a goal that is no ellipsis.
pub proof fn lemma_child_keeps_names(goals: Seq<PatternView>, k: int, cands: Seq<NodeView>, j: int, env: Bindings)
    requires
        match_child(goals, k, cands, j, env) is Some,
    ensures
        keeps_names(env, match_child(goals, k, cands, j, env).unwrap()),
    decreases goals, goals.len() - k, 0nat,
{
    lemma_scan_keeps_names(goals[k], cands, j, env, false);
    let (found, bound) = scan_match(goals[k], cands, j, env, false).unwrap();
    if k + 1 < goals.len() && found + 1 < cands.len() {
        lemma_children_keep_names(goals, k + 1, cands, found + 1, bound);
    }
}

/// A search unbinds no name.
pub proof fn lemma_scan_keeps_names(goal: PatternView, cands: Seq<NodeView>, j: int, env: Bindings, any: bool)
    requires
        scan_match(goal, cands, j, env, any) is Some,
    ensures
        keeps_names(env, scan_match(goal, cands, j, env, any).unwrap().1),
    decreases goal, cands.len() - j + 1, 0nat,
{
    if match_node(goal, cands[j], env) is Some {
        lemma_match_keeps_names(goal, cands[j], env);
    } else {
        lemma_scan_keeps_names(goal, cands, j + 1, env, any);
    }
}

} // verus!
