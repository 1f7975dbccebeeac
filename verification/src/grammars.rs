//! Parsing source text with tree-sitter grammars, and handing the trees on
//! as the library's own syntax nodes.
use vstd::prelude::*;

use crate::cst::SyntaxNode;
use crate::span::Span;

verus! {

/// Declares tree-sitter's node type, which the conversion below reads.
#[verifier::external_type_specification]
#[verifier::external_body]
pub struct ExTreeSitterNode<'tree>(tree_sitter::Node<'tree>);

/// The tree that tree-sitter's Rust grammar gives a source text, as syntax
/// nodes; `None` where the parser gives no tree.
pub uninterp spec fn rust_syntax_tree(source: Seq<char>) -> Option<SyntaxNode>;

/// The tree that tree-sitter's TypeScript grammar gives a source text, as
/// syntax nodes; `None` where the parser gives no tree.
pub uninterp spec fn typescript_syntax_tree(source: Seq<char>) -> Option<SyntaxNode>;

/// The span of a tree-sitter node: its byte range and its start and end
/// rows and columns (`Node::start_byte`, `end_byte`, `start_position`,
/// `end_position`). Nothing is claimed of the result.
#[verifier::external_body]
fn node_span(node: &tree_sitter::Node) -> Span {
    let (s, e) = (node.start_position(), node.end_position());
    Span {
        start: node.start_byte() as u32,
        end: node.end_byte() as u32,
        start_line: s.row as u32,
        start_col: s.column as u32,
        end_line: e.row as u32,
        end_col: e.column as u32,
    }
}

/// A tree-sitter node and its subtree as syntax nodes, one for one: kind
/// (`Node::kind`), field name (`TreeCursor::field_name`), text
/// (`Node::utf8_text`, empty where it fails), span, error and missing flags,
/// and children in order (`TreeCursor::goto_first_child`,
/// `goto_next_sibling`). Only the two parsing wrappers below call it, and
/// nothing is claimed of the result: what they return is named instead.
#[verifier::external_body]
fn syntax_node_of(node: tree_sitter::Node, source: &str, field: Option<&str>) -> SyntaxNode {
    let mut children = Vec::new();
    let mut cursor = node.walk();
    let mut more = cursor.goto_first_child();
    while more {
        children.push(syntax_node_of(cursor.node(), source, cursor.field_name()));
        more = cursor.goto_next_sibling();
    }
    let text = node.utf8_text(source.as_bytes()).unwrap_or("").to_string();
    let field = field.map(|f| f.to_string());
    let kind = node.kind().to_string();
    SyntaxNode { kind, field, text, span: node_span(&node), is_error: node.is_error(), is_missing: node.is_missing(), children }
}

/// Parses `source` with tree-sitter's Rust grammar (`tree_sitter::Parser::new`,
/// `set_language` with `tree_sitter_rust::LANGUAGE`, `parse`). The result is
/// named: it depends on the source text alone.
#[verifier::external_body]
pub(crate) fn parse_rust(source: &str) -> (r: Option<SyntaxNode>)
    ensures
        r == rust_syntax_tree(source@),
{
    let mut parser = tree_sitter::Parser::new();
    if parser.set_language(&tree_sitter_rust::LANGUAGE.into()).is_err() {
        return None;
    }
    match parser.parse(source, None) {
        Some(tree) => Some(syntax_node_of(tree.root_node(), source, None)),
        None => None,
    }
}

/// Parses `source` with tree-sitter's TypeScript grammar
/// (`tree_sitter_typescript::LANGUAGE_TYPESCRIPT`), as `parse_rust` does.
/// The result is named: it depends on the source text alone.
#[verifier::external_body]
pub(crate) fn parse_typescript(source: &str) -> (r: Option<SyntaxNode>)
    ensures
        r == typescript_syntax_tree(source@),
{
    let mut parser = tree_sitter::Parser::new();
    if parser.set_language(&tree_sitter_typescript::LANGUAGE_TYPESCRIPT.into()).is_err() {
        return None;
    }
    match parser.parse(source, None) {
        Some(tree) => Some(syntax_node_of(tree.root_node(), source, None)),
        None => None,
    }
}

} // verus!
