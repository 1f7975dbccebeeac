//! Concrete syntax trees: what a tree-sitter parse of a file hands the
//! library, one node per syntax node, with its kind, its text and its place.
use vstd::prelude::*;

use crate::span::Span;

verus! {

/// One node of a concrete syntax tree.
#[derive(Debug)]
pub struct SyntaxNode {
    /// The node's grammar kind (e.g. `requirement`, `identifier`, `ERROR`).
    pub kind: String,
    /// The name of the field under which the node hangs in its parent, if any.
    pub field: Option<String>,
    /// The source text the node covers.
    pub text: String,
    /// Where the node lies in the source.
    pub span: Span,
    /// The node stands for a syntax error.
    pub is_error: bool,
    /// The parser inserted the node for something the source lacks.
    pub is_missing: bool,
    /// The node's children, in source order.
    pub children: Vec<SyntaxNode>,
}

impl SyntaxNode {
    /// A node with no children.
    pub fn leaf(kind: &str, text: &str, span: Span) -> (n: Self)
        ensures
            n.kind@ == kind@,
            n.field is None,
            n.text@ == text@,
            n.span == span,
            !n.is_error,
            !n.is_missing,
            n.children@.len() == 0,
    {
        SyntaxNode {
            kind: kind.to_owned(),
            field: None,
            text: text.to_owned(),
            span,
            is_error: false,
            is_missing: false,
            children: Vec::new(),
        }
    }

    /// A node with the given children.
    pub fn branch(kind: &str, text: &str, span: Span, children: Vec<SyntaxNode>) -> (n: Self)
        ensures
            n.kind@ == kind@,
            n.field is None,
            n.text@ == text@,
            n.span == span,
            !n.is_error,
            !n.is_missing,
            n.children@ == children@,
    {
        SyntaxNode {
            kind: kind.to_owned(),
            field: None,
            text: text.to_owned(),
            span,
            is_error: false,
            is_missing: false,
            children,
        }
    }

    /// The same node, hanging under field `field` of its parent.
    pub fn in_field(self, field: &str) -> (n: Self)
        ensures
            n.kind == self.kind,
            n.field matches Some(f) && f@ == field@,
            n.text == self.text,
            n.span == self.span,
            n.is_error == self.is_error,
            n.is_missing == self.is_missing,
            n.children == self.children,
    {
        SyntaxNode { field: Some(field.to_owned()), ..self }
    }
}

} // verus!
