//! Structural matching of syntax-tree patterns against concrete syntax trees.
//!
//! A pattern is a syntax tree with placeholders in it. `match_node_non_recursive` decides
//! whether a pattern matches a node and binds the placeholders; `match_end_non_recursive`
//! finds where such a match ends without binding anything. What a match is says `matching`,
//! on the views of patterns and nodes; what holds of every match says `laws`.

pub mod language;
pub mod laws;
pub mod match_tree;
pub mod matching;
pub mod meta_var;
pub mod node;
pub mod pattern;

pub use crate::language::{Language, SigilSyntax};
pub use crate::match_tree::{
    does_node_match_exactly, extract_var_from_node, match_end_non_recursive, match_node_non_recursive,
};
pub use crate::meta_var::{MetaVarEnv, MetaVariable};
pub use crate::node::Node;
pub use crate::pattern::Pattern;
