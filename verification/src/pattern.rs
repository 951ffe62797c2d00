//! Patterns: syntax trees with placeholders in them.

use vstd::prelude::*;
use crate::meta_var::{MetaVariable, MetaVariableView};

verus! {

/// A pattern with its texts as sequences of characters.
pub enum PatternView {
    /// A token of fixed kind and text.
    Terminal { text: Seq<char>, is_named: bool, kind: u16 },
    /// A placeholder.
    MetaVar { meta_var: MetaVariableView },
    /// A node of fixed kind whose children are patterns.
    Internal { kind: u16, children: Seq<PatternView> },
}

impl PatternView {
    /// An anonymous token, which a run matched by an ellipsis may leave out.
    pub open spec fn is_trivial(self) -> bool {
        self matches PatternView::Terminal { is_named, .. } && !is_named
    }

    /// A placeholder that stands for a run of siblings.
    pub open spec fn is_ellipsis(self) -> bool {
        self matches PatternView::MetaVar { meta_var } && meta_var.is_ellipsis()
    }

    /// The name under which an ellipsis binds its run, if it binds at all.
    pub open spec fn ellipsis_name(self) -> Option<Seq<char>> {
        match self {
            PatternView::MetaVar { meta_var } => meta_var.ellipsis_name(),
            _ => None,
        }
    }

    /// The unnamed ellipsis, which has a meaning only among siblings.
    pub open spec fn is_unnamed_ellipsis(self) -> bool {
        self matches PatternView::MetaVar { meta_var } && meta_var is Multiple
    }

    /// Every internal node of the pattern has at least one child.
    pub open spec fn well_formed(self) -> bool
        decreases self,
    {
        match self {
            PatternView::Internal { children, .. } => {
                &&& children.len() > 0
                &&& forall|i: int| 0 <= i < children.len() ==> (#[trigger] children[i]).well_formed()
            },
            _ => true,
        }
    }
}

/// A pattern to match syntax nodes against.
#[derive(Debug)]
pub enum Pattern {
    /// A token of fixed kind and text.
    Terminal { text: String, is_named: bool, kind_id: u16 },
    /// A placeholder.
    MetaVar { meta_var: MetaVariable },
    /// A node of fixed kind whose children are patterns.
    Internal { kind_id: u16, children: Vec<Pattern> },
}

/// The view of one pattern.
pub open spec fn pattern_view(pattern: Pattern) -> PatternView
    decreases pattern, 0nat,
{
    match pattern {
        Pattern::Terminal { text, is_named, kind_id } => PatternView::Terminal {
            text: text@,
            is_named,
            kind: kind_id,
        },
        Pattern::MetaVar { meta_var } => PatternView::MetaVar { meta_var: meta_var@ },
        Pattern::Internal { kind_id, children } => PatternView::Internal {
            kind: kind_id,
            children: pattern_views(children@),
        },
    }
}

/// The views of a list of patterns, in order.
pub open spec fn pattern_views(patterns: Seq<Pattern>) -> Seq<PatternView>
    decreases patterns, patterns.len(),
{
    if patterns.len() == 0 {
        Seq::empty()
    } else {
        pattern_views(patterns.drop_last()).push(pattern_view(patterns.last()))
    }
}

/// `pattern_views` keeps the length.
pub broadcast proof fn lemma_pattern_views_len(patterns: Seq<Pattern>)
    ensures
        #[trigger] pattern_views(patterns).len() == patterns.len(),
    decreases patterns.len(),
{
    if patterns.len() > 0 {
        lemma_pattern_views_len(patterns.drop_last());
    }
}

/// `pattern_views` takes each pattern to its view.
pub broadcast proof fn lemma_pattern_views_index(patterns: Seq<Pattern>, i: int)
    requires
        0 <= i < patterns.len(),
    ensures
        #[trigger] pattern_views(patterns)[i] == patterns[i]@,
    decreases patterns.len(),
{
    lemma_pattern_views_len(patterns.drop_last());
    if i < patterns.len() - 1 {
        lemma_pattern_views_index(patterns.drop_last(), i);
    }
}

pub broadcast group group_pattern_views {
    lemma_pattern_views_len,
    lemma_pattern_views_index,
}

impl View for Pattern {
    type V = PatternView;

    open spec fn view(&self) -> PatternView {
        pattern_view(*self)
    }
}

impl Pattern {
    /// Whether every internal node of the pattern has at least one child.
    pub fn is_well_formed(&self) -> (r: bool)
        ensures
            r == self@.well_formed(),
        decreases self@,
    {
        broadcast use group_pattern_views;

        match self {
            Pattern::Internal { children, .. } => {
                if children.len() == 0 {
                    return false;
                }
                let mut i: usize = 0;
                while i < children.len()
                    invariant
                        i <= children.len(),
                        self@ is Internal,
                        self@->Internal_children == pattern_views(children@),
                        forall|k: int| 0 <= k < i ==> (#[trigger] pattern_views(children@)[k]).well_formed(),
                    decreases children.len() - i,
                {
                    broadcast use group_pattern_views;

                    assert(pattern_views(children@)[i as int] == children@[i as int]@);
                    if !children[i].is_well_formed() {
                        return false;
                    }
                    i += 1;
                }
                true
            },
            _ => true,
        }
    }

    /// Whether the pattern is the unnamed ellipsis.
    pub fn is_unnamed_ellipsis(&self) -> (r: bool)
        ensures
            r == self@.is_unnamed_ellipsis(),
    {
        match self {
            Pattern::MetaVar { meta_var: MetaVariable::Multiple } => true,
            _ => false,
        }
    }

    /// Whether the pattern is an anonymous token.
    pub fn is_trivial(&self) -> (r: bool)
        ensures
            r == self@.is_trivial(),
    {
        match self {
            Pattern::Terminal { is_named, .. } => !*is_named,
            _ => false,
        }
    }
}

} // verus!
