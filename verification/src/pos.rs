//! Source positions attached to syntax and to types.

use vstd::prelude::*;

verus! {

/// Where a node came from: a byte range of the source text, or a label for
/// nodes the compiler made up itself.
#[derive(Clone, Copy, Debug, PartialEq, Eq)]
pub enum Span {
    /// A half-open byte range `start..end` of the source text.
    Bytes { start: usize, end: usize },
    /// No source location; the label says why the node exists.
    Synthetic(&'static str),
}

/// A node together with its span.
#[derive(Clone, Copy, Debug, PartialEq, Eq)]
pub struct Spanned<T> {
    pub node: T,
    pub span: Span,
}

impl<T> Spanned<T> {
    /// Attaches `span` to `node`.
    pub fn new(node: T, span: Span) -> (spanned: Self)
        ensures
            spanned.node == node,
            spanned.span == span,
    {
        Spanned { node, span }
    }
}

} // verus!
