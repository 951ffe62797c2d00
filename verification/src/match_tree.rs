//! Matching a pattern against a node of a syntax tree.

use vstd::prelude::*;
use vstd::slice::slice_subrange;
use crate::language::{Language, placeholder_view};
use crate::laws::lemma_match_end_within;
use crate::matching::{
    end_child, end_children, exactly_equal, match_child, match_children, match_end, match_exhausted,
    match_leaf, match_node, match_outcome, scan_end, scan_match, skip_trivial,
};
use crate::meta_var::{MetaVarEnv, MetaVariable, drop_trailing, ref_views};
use crate::node::{Node, NodeView, node_views, group_node_views, lemma_node_views_subrange};
use crate::pattern::{Pattern, pattern_views, group_pattern_views};

verus! {

broadcast use {group_node_views, group_pattern_views};

/// The name of an optional string as a sequence of characters.
pub open spec fn name_view(name: Option<String>) -> Option<Seq<char>> {
    match name {
        Some(n) => Some(n@),
        None => None,
    }
}

/// Tells an ellipsis from any other pattern: `Ok` with the name under which the ellipsis
/// binds its run, if it has one, and `Err` for a pattern that is no ellipsis.
pub fn try_get_ellipsis_mode(node: &Pattern) -> (r: Result<Option<String>, ()>)
    ensures
        r is Ok <==> node@.is_ellipsis(),
        r matches Ok(name) ==> name_view(name) == node@.ellipsis_name(),
{
    match node {
        Pattern::MetaVar { meta_var } => match meta_var {
            MetaVariable::Multiple => Ok(None),
            MetaVariable::MultiCapture(n) => Ok(Some(n.clone())),
            _ => Err(()),
        },
        _ => Err(()),
    }
}

/// Matches a placeholder against one node, as `match_leaf` says.
/// The unnamed ellipsis has no meaning outside a list of siblings and is not accepted.
pub fn match_leaf_meta_var<'t>(mv: &MetaVariable, candidate: &'t Node, env: &mut MetaVarEnv<'t>) -> (r: Option<
    &'t Node,
>)
    requires
        !(mv@ is Multiple),
    ensures
        match match_leaf(mv@, candidate@, old(env)@) {
            Some(bound) => r == Some(candidate) && final(env)@ == bound,
            None => r is None && final(env)@ == old(env)@,
        },
{
    match mv {
        MetaVariable::Capture(name, named) => {
            if *named && !candidate.named {
                None
            } else if env.insert(name.as_str(), candidate) {
                Some(candidate)
            } else {
                None
            }
        },
        MetaVariable::Dropped(named) => {
            if *named && !candidate.named {
                None
            } else {
                Some(candidate)
            }
        },
        MetaVariable::Multiple => Some(candidate),
        MetaVariable::MultiCapture(name) => {
            let mut run: Vec<&'t Node> = Vec::new();
            run.push(candidate);
            assert(ref_views(run@) =~= seq![candidate@]);
            env.insert_multi(name.as_str(), run);
            Some(candidate)
        },
    }
}

/// Records what an ellipsis consumed: the nodes in `matched` and, behind them, those of
/// `cand_children`. A named ellipsis binds that run without its last `skipped_anonymous` nodes;
/// an unnamed one leaves the environment as it is.
pub fn update_ellipsis_env<'t>(
    optional_name: &Option<String>,
    matched: Vec<&'t Node>,
    env: &mut MetaVarEnv<'t>,
    cand_children: &'t [Node],
    skipped_anonymous: usize,
)
    ensures
        final(env)@ == old(env)@.bind_ellipsis(
            name_view(*optional_name),
            ref_views(matched@) + node_views(cand_children@),
            skipped_anonymous as nat,
        ),
{
    if let Some(name) = optional_name {
        let mut matched = matched;
        let ghost head = matched@;
        let mut i: usize = 0;
        while i < cand_children.len()
            invariant
                i <= cand_children.len(),
                ref_views(matched@) == ref_views(head) + node_views(cand_children@).take(i as int),
            decreases cand_children.len() - i,
        {
            let ghost so_far = matched@;
            matched.push(&cand_children[i]);
            assert(ref_views(matched@) =~= ref_views(so_far).push(cand_children@[i as int]@));
            assert(node_views(cand_children@).take(i + 1) =~= node_views(cand_children@).take(i as int).push(
                cand_children@[i as int]@,
            ));
            assert(ref_views(matched@) =~= ref_views(head) + node_views(cand_children@).take(i + 1));
            i += 1;
        }
        assert(node_views(cand_children@).take(i as int) =~= node_views(cand_children@));
        let ghost all = matched@;
        let keep = if matched.len() > skipped_anonymous {
            matched.len() - skipped_anonymous
        } else {
            0
        };
        matched.truncate(keep);
        assert(ref_views(matched@) =~= drop_trailing(ref_views(all), skipped_anonymous as nat));
        env.insert_multi(name.as_str(), matched);
    }
}

/// Matches `goal` against `candidate`, as `match_node` says.
///
/// Where they match, the candidate is returned and `env` holds the bindings of the match.
/// Where they do not, `env` is left as it was.
pub fn match_node_non_recursive<'t>(goal: &Pattern, candidate: &'t Node, env: &mut MetaVarEnv<'t>) -> (r: Option<
    &'t Node,
>)
    requires
        goal@.well_formed(),
        !goal@.is_unnamed_ellipsis(),
    ensures
        match_outcome(goal@, candidate@, old(env)@, r is Some, final(env)@),
        r is Some ==> r == Some(candidate),
    decreases goal@, 0nat,
{
    match goal {
        Pattern::Terminal { text, kind_id, .. } => {
            if *kind_id == candidate.kind_id && *text == candidate.text {
                Some(candidate)
            } else {
                None
            }
        },
        Pattern::MetaVar { meta_var } => match_leaf_meta_var(meta_var, candidate, env),
        Pattern::Internal { kind_id, children } => {
            if *kind_id == candidate.kind_id {
                proof {
                    candidate.lemma_view_children();
                }
                match match_nodes_non_recursive(children, candidate.children.as_slice(), env) {
                    Some(_) => Some(candidate),
                    None => None,
                }
            } else {
                None
            }
        },
    }
}

/// Ends a match whose candidates are used up while the goals from `i` on are left, as
/// `match_exhausted` says: `attempt` takes the place of `env` where the match is made.
fn match_exhausted_goals<'t>(
    goals: &Vec<Pattern>,
    i: usize,
    attempt: MetaVarEnv<'t>,
    candidates: &'t [Node],
    env: &mut MetaVarEnv<'t>,
) -> (r: Option<()>)
    requires
        i < goals.len(),
    ensures
        match match_exhausted(pattern_views(goals@), i as int, attempt@) {
            Some(bound) => r is Some && final(env)@ == bound,
            None => r is None && final(env)@ == old(env)@,
        },
{
    if i + 1 == goals.len() {
        if let Ok(optional_name) = try_get_ellipsis_mode(&goals[i]) {
            let mut attempt = attempt;
            let nothing = slice_subrange(candidates, 0, 0);
            assert(Seq::<NodeView>::empty() + node_views(nothing@) =~= Seq::<NodeView>::empty());
            update_ellipsis_env(&optional_name, Vec::new(), &mut attempt, nothing, 0);
            *env = attempt;
            return Some(());
        }
    }
    None
}

/// Matches a list of goals against a list of sibling candidates, as `match_children` says.
///
/// The bindings are made on a copy of `env`, which takes the place of `env` once every goal
/// has found its candidate. Where the lists do not match, `env` is left as it was.
/// A list of goals may be empty only where the list of candidates is.
#[verifier::loop_isolation(false)]
pub fn match_nodes_non_recursive<'t>(goals: &Vec<Pattern>, candidates: &'t [Node], env: &mut MetaVarEnv<'t>) -> (r:
    Option<()>)
    requires
        candidates@.len() > 0 ==> goals.len() > 0,
        forall|i: int| 0 <= i < goals.len() ==> (#[trigger] pattern_views(goals@)[i]).well_formed(),
    ensures
        match match_children(pattern_views(goals@), 0, node_views(candidates@), 0, old(env)@) {
            Some(bound) => r is Some && final(env)@ == bound,
            None => r is None && final(env)@ == old(env)@,
        },
    decreases pattern_views(goals@), 1nat,
{
    let ghost g = pattern_views(goals@);
    let ghost c = node_views(candidates@);
    let ghost target = match_children(g, 0, c, 0, old(env)@);
    let n = goals.len();
    let m = candidates.len();
    if m == 0 {
        return None;
    }
    let mut attempt = env.clone();
    let mut i: usize = 0;
    let mut j: usize = 0;
    loop
        invariant
            i < n,
            j < m,
            env@ == old(env)@,
            match_children(g, i as int, c, j as int, attempt@) == target,
        decreases n - i,
    {
        if let Ok(optional_name) = try_get_ellipsis_mode(&goals[i]) {
            let mut k = i + 1;
            while k < n && goals[k].is_trivial()
                invariant
                    i < k <= n,
                    skip_trivial(g, k as int) == skip_trivial(g, i + 1),
                decreases n - k,
            {
                k += 1;
            }
            let skipped_anonymous = k - (i + 1);
            if k == n {
                proof {
                    lemma_node_views_subrange(candidates@, j as int, m as int);
                    assert(Seq::<NodeView>::empty() + c.skip(j as int) =~= c.skip(j as int));
                }
                let rest = slice_subrange(candidates, j, m);
                update_ellipsis_env(&optional_name, Vec::new(), &mut attempt, rest, skipped_anonymous);
                *env = attempt;
                return Some(());
            }
            let nothing = slice_subrange(candidates, j, j);
            assert(node_views(nothing@) =~= Seq::<NodeView>::empty());
            let mut matched: Vec<&'t Node> = Vec::new();
            if try_get_ellipsis_mode(&goals[k]).is_ok() {
                matched.push(&candidates[j]);
                assert(ref_views(matched@) + node_views(nothing@) =~= seq![c[j as int]]);
                update_ellipsis_env(&optional_name, matched, &mut attempt, nothing, skipped_anonymous);
                j += 1;
                if j == m {
                    return match_exhausted_goals(goals, k, attempt, candidates, env);
                }
                i = k;
                continue ;
            }
            let ghost from = j;
            let ghost before = attempt@;
            let mut found = false;
            while !found
                invariant
                    from <= j < m,
                    scan_match(g[k as int], c, j as int, before, true) == scan_match(
                        g[k as int],
                        c,
                        from as int,
                        before,
                        true,
                    ),
                    !found ==> attempt@ == before,
                    found ==> match_node(g[k as int], c[j as int], before) == Some(attempt@),
                    ref_views(matched@) == c.subrange(from as int, j as int),
                decreases m - j, if found { 0nat } else { 1nat },
            {
                if match_node_non_recursive(&goals[k], &candidates[j], &mut attempt).is_some() {
                    found = true;
                } else {
                    matched.push(&candidates[j]);
                    assert(ref_views(matched@) =~= c.subrange(from as int, j + 1));
                    j += 1;
                    if j == m {
                        return None;
                    }
                }
            }
            assert(ref_views(matched@) + node_views(nothing@) =~= c.subrange(from as int, j as int));
            update_ellipsis_env(&optional_name, matched, &mut attempt, nothing, skipped_anonymous);
            assert(match_child(g, k as int, c, j as int, attempt@) == target);
            i = k;
        }
        assert(match_child(g, i as int, c, j as int, attempt@) == target);
        let ghost from = j;
        let ghost before = attempt@;
        let mut found = false;
        while !found
            invariant
                from <= j <= m,
                scan_match(g[i as int], c, j as int, before, false) == scan_match(
                    g[i as int],
                    c,
                    from as int,
                    before,
                    false,
                ),
                !found ==> attempt@ == before,
                found ==> j < m && match_node(g[i as int], c[j as int], before) == Some(attempt@),
            decreases m - j, if found { 0nat } else { 1nat },
        {
            if j == m {
                return None;
            }
            if match_node_non_recursive(&goals[i], &candidates[j], &mut attempt).is_some() {
                found = true;
            } else if !candidates[j].named {
                j += 1;
            } else {
                return None;
            }
        }
        i += 1;
        if i == n {
            *env = attempt;
            return Some(());
        }
        j += 1;
        if j == m {
            return match_exhausted_goals(goals, i, attempt, candidates, env);
        }
    }
}

/// The end of the span that `goal` matches in `candidate`, as `match_end` says, without any
/// binding made. The end is that of the candidate or of a node below it, and so, in a
/// well-formed tree, lies within the candidate.
pub fn match_end_non_recursive(goal: &Pattern, candidate: &Node) -> (r: Option<usize>)
    requires
        goal@.well_formed(),
        !goal@.is_unnamed_ellipsis(),
    ensures
        r == match_end(goal@, candidate@),
        r matches Some(end) ==> candidate@.ends_within(end),
        r matches Some(end) ==> candidate@.well_formed() ==> candidate@.start <= end <= candidate@.end,
    decreases goal@, 0nat,
{
    let r = match goal {
        Pattern::MetaVar { meta_var } => match meta_var {
            MetaVariable::Capture(_, named) => {
                if *named && !candidate.named {
                    None
                } else {
                    Some(candidate.end)
                }
            },
            MetaVariable::Dropped(named) => {
                if *named && !candidate.named {
                    None
                } else {
                    Some(candidate.end)
                }
            },
            MetaVariable::Multiple => Some(candidate.end),
            MetaVariable::MultiCapture(_) => Some(candidate.end),
        },
        Pattern::Internal { kind_id, children } => {
            if *kind_id == candidate.kind_id {
                proof {
                    candidate.lemma_view_children();
                }
                match_multi_nodes_end_non_recursive(children, candidate.children.as_slice())
            } else {
                None
            }
        },
        Pattern::Terminal { text, kind_id, .. } => {
            if *kind_id == candidate.kind_id && *text == candidate.text {
                Some(candidate.end)
            } else {
                None
            }
        },
    };
    proof {
        if r is Some {
            lemma_match_end_within(goal@, candidate@);
        }
    }
    r
}

/// The end of the match of a list of goals against a list of sibling candidates, as
/// `end_children` says. A list of goals may be empty only where the list of candidates is.
#[verifier::loop_isolation(false)]
pub fn match_multi_nodes_end_non_recursive(goals: &Vec<Pattern>, candidates: &[Node]) -> (r: Option<usize>)
    requires
        candidates@.len() > 0 ==> goals.len() > 0,
        forall|i: int| 0 <= i < goals.len() ==> (#[trigger] pattern_views(goals@)[i]).well_formed(),
    ensures
        r == end_children(pattern_views(goals@), 0, node_views(candidates@), 0),
    decreases pattern_views(goals@), 1nat,
{
    let ghost g = pattern_views(goals@);
    let ghost c = node_views(candidates@);
    let n = goals.len();
    let m = candidates.len();
    if m == 0 {
        return None;
    }
    let mut i: usize = 0;
    let mut j: usize = 0;
    loop
        invariant
            i < n,
            j < m,
            end_children(g, i as int, c, j as int) == end_children(g, 0, c, 0),
        decreases n - i,
    {
        if try_get_ellipsis_mode(&goals[i]).is_ok() {
            let mut k = i + 1;
            while k < n && goals[k].is_trivial()
                invariant
                    i < k <= n,
                    skip_trivial(g, k as int) == skip_trivial(g, i + 1),
                decreases n - k,
            {
                k += 1;
            }
            if k == n {
                return Some(candidates[m - 1].end);
            }
            if try_get_ellipsis_mode(&goals[k]).is_ok() {
                j += 1;
                if j == m {
                    return if k + 1 == n {
                        Some(candidates[m - 1].end)
                    } else {
                        None
                    };
                }
                i = k;
                continue ;
            }
            let ghost from = j;
            let mut found = false;
            while !found
                invariant
                    from <= j < m,
                    scan_end(g[k as int], c, j as int, true) == scan_end(g[k as int], c, from as int, true),
                    found ==> match_end(g[k as int], c[j as int]) is Some,
                decreases m - j, if found { 0nat } else { 1nat },
            {
                if match_end_non_recursive(&goals[k], &candidates[j]).is_some() {
                    found = true;
                } else {
                    j += 1;
                    if j == m {
                        return None;
                    }
                }
            }
            assert(end_child(g, k as int, c, j as int) == end_children(g, 0, c, 0));
            i = k;
        }
        assert(end_child(g, i as int, c, j as int) == end_children(g, 0, c, 0));
        let ghost from = j;
        let mut matched: Option<usize> = None;
        while matched.is_none()
            invariant
                from <= j <= m,
                scan_end(g[i as int], c, j as int, false) == scan_end(g[i as int], c, from as int, false),
                matched is Some ==> j < m && match_end(g[i as int], c[j as int]) == matched,
            decreases m - j, if matched is Some { 0nat } else { 1nat },
        {
            if j == m {
                return None;
            }
            matched = match_end_non_recursive(&goals[i], &candidates[j]);
            if matched.is_none() {
                if !candidates[j].named {
                    j += 1;
                } else {
                    return None;
                }
            }
        }
        let end = matched.unwrap();
        i += 1;
        if i == n {
            return Some(end);
        }
        j += 1;
        if j == m {
            return if i + 1 == n && try_get_ellipsis_mode(&goals[i]).is_ok() {
                Some(end)
            } else {
                None
            };
        }
    }
}

/// Decides `exactly_equal` of two nodes.
pub fn does_node_match_exactly(goal: &Node, candidate: &Node) -> (r: bool)
    ensures
        r == exactly_equal(goal@, candidate@),
    decreases goal@,
{
    proof {
        goal.lemma_view_children();
        candidate.lemma_view_children();
    }
    if goal.id == candidate.id {
        return true;
    }
    if goal.is_named_leaf() || candidate.is_named_leaf() {
        return goal.text == candidate.text;
    }
    if goal.kind_id != candidate.kind_id {
        return false;
    }
    if goal.children.len() != candidate.children.len() {
        return false;
    }
    let mut i: usize = 0;
    while i < goal.children.len()
        invariant
            i <= goal.children.len(),
            goal.children.len() == candidate.children.len(),
            goal@.id != candidate@.id,
            !goal@.is_named_leaf(),
            !candidate@.is_named_leaf(),
            goal@.kind == candidate@.kind,
            goal@.children == node_views(goal.children@),
            candidate@.children == node_views(candidate.children@),
            forall|k: int| 0 <= k < i ==> exactly_equal(#[trigger] goal@.children[k], candidate@.children[k]),
        decreases goal.children.len() - i,
    {
        assert(goal@.children[i as int] == goal.children[i as int]@);
        assert(candidate@.children[i as int] == candidate.children[i as int]@);
        if !does_node_match_exactly(&goal.children[i], &candidate.children[i]) {
            assert(!exactly_equal(goal@.children[i as int], candidate@.children[i as int]));
            return false;
        }
        i += 1;
    }
    true
}

/// Reads the text of a node as a placeholder of the language `lang`.
pub fn extract_var_from_node<L: Language>(goal: &Node, lang: &L) -> (r: Option<MetaVariable>)
    ensures
        placeholder_view(r) == lang.placeholder(goal@.text),
{
    lang.extract_meta_var(goal.text.as_str())
}

} // verus!
