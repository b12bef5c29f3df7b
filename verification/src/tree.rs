use vstd::prelude::*;

verus! {

/// One node of a parsed document tree: a closed set of variants covering
/// scalars, ordered sequences, ordered mappings, unresolved aliases, and an
/// explicit sentinel for content that failed to parse.
#[derive(Debug, PartialEq)]
pub enum Node {
    /// No payload.
    Null,
    /// A boolean scalar.
    Boolean(bool),
    /// An integer scalar.
    Integer(i64),
    /// A decimal scalar, kept as its exact source text.
    Real(String),
    /// A text scalar; may contain embedded line breaks.
    Text(String),
    /// An ordered list of nodes; order is significant.
    Sequence(Vec<Node>),
    /// An ordered list of key/value pairs; insertion order is preserved.
    Mapping(Vec<(Node, Node)>),
    /// A reference-style placeholder; carries no content.
    Alias,
    /// Sentinel for content that failed to parse at this node.
    Malformed,
}

} // verus!
