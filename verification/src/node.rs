//! Concrete syntax trees.

use vstd::prelude::*;

verus! {

/// The mathematical content of a syntax node: what matching reads of it.
pub struct NodeView {
    /// Identity of the node within its tree.
    pub id: usize,
    /// Identifier of the node's syntax kind.
    pub kind: u16,
    /// The source text that the node spans.
    pub text: Seq<char>,
    /// Byte offset at which the node starts.
    pub start: usize,
    /// Byte offset just past the node.
    pub end: usize,
    /// Whether the grammar names the node, as opposed to punctuation and other anonymous tokens.
    pub named: bool,
    /// The node's children, in source order.
    pub children: Seq<NodeView>,
}

impl NodeView {
    /// A named node none of whose children is named.
    pub open spec fn is_named_leaf(self) -> bool {
        self.named && forall|i: int| 0 <= i < self.children.len() ==> !(#[trigger] self.children[i]).named
    }

    /// Every node of the tree ends no earlier than it starts and spans its children, which
    /// stand in source order.
    pub open spec fn well_formed(self) -> bool
        decreases self,
    {
        &&& self.start <= self.end
        &&& forall|i: int|
            0 <= i < self.children.len() ==> {
                &&& (#[trigger] self.children[i]).well_formed()
                &&& self.start <= self.children[i].start
                &&& self.children[i].end <= self.end
            }
        &&& in_source_order(self.children)
    }

    /// Whether `end` is where this node or a node below it ends.
    pub open spec fn ends_within(self, end: usize) -> bool
        decreases self,
    {
        self.end == end || exists|i: int| 0 <= i < self.children.len() && (#[trigger] self.children[i]).ends_within(end)
    }
}

/// Whether each node of a run ends before the nodes behind it start.
pub open spec fn in_source_order(nodes: Seq<NodeView>) -> bool {
    forall|i: int, j: int| 0 <= i < j < nodes.len() ==> (#[trigger] nodes[i]).end <= (#[trigger] nodes[j]).start
}

/// A node of a concrete syntax tree, owning its subtree.
#[derive(Debug)]
pub struct Node {
    /// Identity of the node within its tree.
    pub id: usize,
    /// Identifier of the node's syntax kind.
    pub kind_id: u16,
    /// The source text that the node spans.
    pub text: String,
    /// Byte offset at which the node starts.
    pub start: usize,
    /// Byte offset just past the node.
    pub end: usize,
    /// Whether the grammar names the node.
    pub named: bool,
    /// The node's children, in source order.
    pub children: Vec<Node>,
}

/// The view of one node: its fields, and the views of its children.
pub open spec fn node_view(node: Node) -> NodeView
    decreases node, 0nat,
{
    NodeView {
        id: node.id,
        kind: node.kind_id,
        text: node.text@,
        start: node.start,
        end: node.end,
        named: node.named,
        children: node_views(node.children@),
    }
}

/// The views of a run of nodes, in order.
pub open spec fn node_views(nodes: Seq<Node>) -> Seq<NodeView>
    decreases nodes, nodes.len(),
{
    if nodes.len() == 0 {
        Seq::empty()
    } else {
        node_views(nodes.drop_last()).push(node_view(nodes.last()))
    }
}

/// `node_views` keeps the length.
pub broadcast proof fn lemma_node_views_len(nodes: Seq<Node>)
    ensures
        #[trigger] node_views(nodes).len() == nodes.len(),
    decreases nodes.len(),
{
    if nodes.len() > 0 {
        lemma_node_views_len(nodes.drop_last());
    }
}

/// `node_views` takes each node to its view.
pub broadcast proof fn lemma_node_views_index(nodes: Seq<Node>, i: int)
    requires
        0 <= i < nodes.len(),
    ensures
        #[trigger] node_views(nodes)[i] == nodes[i]@,
    decreases nodes.len(),
{
    lemma_node_views_len(nodes.drop_last());
    if i < nodes.len() - 1 {
        lemma_node_views_index(nodes.drop_last(), i);
    }
}

/// `node_views` of a part of a run is that part of its `node_views`.
pub proof fn lemma_node_views_subrange(nodes: Seq<Node>, from: int, to: int)
    requires
        0 <= from <= to <= nodes.len(),
    ensures
        node_views(nodes.subrange(from, to)) == node_views(nodes).subrange(from, to),
{
    let part = nodes.subrange(from, to);
    lemma_node_views_len(nodes);
    lemma_node_views_len(part);
    assert forall|i: int| 0 <= i < part.len() implies node_views(part)[i] == node_views(nodes).subrange(from, to)[i] by {
        lemma_node_views_index(part, i);
        lemma_node_views_index(nodes, from + i);
    }
    assert(node_views(part) =~= node_views(nodes).subrange(from, to));
}

pub broadcast group group_node_views {
    lemma_node_views_len,
    lemma_node_views_index,
}

impl View for Node {
    type V = NodeView;

    open spec fn view(&self) -> NodeView {
        node_view(*self)
    }
}

impl Node {
    /// The children of a node's view are the views of its children.
    pub proof fn lemma_view_children(&self)
        ensures
            self@.children == node_views(self.children@),
            self@.children.len() == self.children@.len(),
            forall|i: int| 0 <= i < self.children@.len() ==> (#[trigger] self@.children[i]) == self.children@[i]@,
    {
        broadcast use group_node_views;

    }

    pub fn is_named_leaf(&self) -> (r: bool)
        ensures
            r == self@.is_named_leaf(),
    {
        broadcast use group_node_views;

        if !self.named {
            return false;
        }
        let mut i: usize = 0;
        while i < self.children.len()
            invariant
                i <= self.children.len(),
                self@.named,
                self@.children == node_views(self.children@),
                forall|k: int| 0 <= k < i ==> !(#[trigger] self@.children[k]).named,
            decreases self.children.len() - i,
        {
            broadcast use group_node_views;

            if self.children[i].named {
                assert(self@.children[i as int].named);
                return false;
            }
            i += 1;
        }
        true
    }
}

} // verus!
