//! Syntax-error checking over a parsed tree: one diagnostic per error or
//! missing node.
use vstd::prelude::*;

use crate::cst::SyntaxNode;
use crate::text::{chars_of, push_str, string_from_range, trim, trimmed};

verus! {

/// Diagnostic severity level.
#[derive(Debug, Clone, Copy, PartialEq, Eq, Structural)]
pub enum LegacySeverity {
    Error,
    Warning,
    Info,
}

/// A diagnostic message with source location.
#[derive(Debug, Clone)]
pub struct Diagnostic {
    pub line: u32,
    pub column: u32,
    pub end_line: u32,
    pub end_column: u32,
    pub message: String,
    pub severity: LegacySeverity,
}

/// What a diagnostic says, its message taken by its view.
pub struct DiagnosticView {
    pub line: u32,
    pub column: u32,
    pub end_line: u32,
    pub end_column: u32,
    pub message: Seq<char>,
    pub severity: LegacySeverity,
}

impl View for Diagnostic {
    type V = DiagnosticView;

    open spec fn view(&self) -> DiagnosticView {
        DiagnosticView {
            line: self.line,
            column: self.column,
            end_line: self.end_line,
            end_column: self.end_column,
            message: self.message@,
            severity: self.severity,
        }
    }
}

/// The views of a sequence of diagnostics.
pub open spec fn diagnostic_views(s: Seq<Diagnostic>) -> Seq<DiagnosticView> {
    s.map_values(|d: Diagnostic| d@)
}

/// At most the first twenty characters of `s`.
pub open spec fn preview(s: Seq<char>) -> Seq<char> {
    if s.len() <= 20 {
        s
    } else {
        s.take(20)
    }
}

/// The error reported for an error or missing node: "Missing <kind>" for a
/// missing node, else the trimmed first twenty characters of its text.
pub open spec fn node_error(n: SyntaxNode) -> DiagnosticView {
    DiagnosticView {
        line: n.span.start_line,
        column: n.span.start_col,
        end_line: n.span.end_line,
        end_column: n.span.end_col,
        message: if n.is_missing {
            "Missing "@ + n.kind@
        } else {
            "Syntax error near '"@ + trim(preview(n.text@)) + "'"@
        },
        severity: LegacySeverity::Error,
    }
}

/// The errors of a tree, in pre-order: the node's own, then its children's.
pub open spec fn tree_errors(n: SyntaxNode) -> Seq<DiagnosticView>
    decreases n, 0int,
{
    (if n.is_error || n.is_missing {
        seq![node_error(n)]
    } else {
        Seq::empty()
    }) + forest_errors(n.children@)
}

/// The errors of a sequence of trees, in order.
pub open spec fn forest_errors(cs: Seq<SyntaxNode>) -> Seq<DiagnosticView>
    decreases cs, 1int,
{
    if cs.len() == 0 {
        Seq::empty()
    } else {
        forest_errors(cs.drop_last()) + tree_errors(cs.last())
    }
}

/// The diagnostic reported when there is no tree.
pub open spec fn parse_failure() -> DiagnosticView {
    DiagnosticView {
        line: 0,
        column: 0,
        end_line: 0,
        end_column: 0,
        message: "Failed to parse document"@,
        severity: LegacySeverity::Error,
    }
}

/// The diagnostic for an error or missing node.
fn error_for(node: &SyntaxNode) -> (d: Diagnostic)
    ensures
        d@ == node_error(*node),
{
    let mut message = String::new();
    if node.is_missing {
        push_str(&mut message, "Missing ");
        push_str(&mut message, node.kind.as_str());
    } else {
        let v = chars_of(node.text.as_str());
        let n = if v.len() <= 20 {
            v.len()
        } else {
            20
        };
        let head = string_from_range(&v, 0, n);
        assert(head@ == preview(node.text@));
        let t = trimmed(head.as_str());
        push_str(&mut message, "Syntax error near '");
        push_str(&mut message, t.as_str());
        push_str(&mut message, "'");
    }
    assert(message@ =~= node_error(*node).message);
    Diagnostic {
        line: node.span.start_line,
        column: node.span.start_col,
        end_line: node.span.end_line,
        end_column: node.span.end_col,
        message,
        severity: LegacySeverity::Error,
    }
}

/// Recursively collect error and missing nodes from the syntax tree.
fn collect_errors(node: &SyntaxNode, diagnostics: &mut Vec<Diagnostic>)
    ensures
        diagnostic_views(final(diagnostics)@) == diagnostic_views(old(diagnostics)@) + tree_errors(
            *node,
        ),
    decreases node,
{
    let ghost start = diagnostic_views(diagnostics@);
    if node.is_error || node.is_missing {
        let d = error_for(node);
        let ghost d0 = diagnostics@;
        diagnostics.push(d);
        assert(diagnostic_views(diagnostics@) =~= diagnostic_views(d0).push(d@));
    }
    let ghost own = diagnostic_views(diagnostics@);
    let ghost cs = node.children@;
    let mut i: usize = 0;
    while i < node.children.len()
        invariant
            i <= cs.len(),
            cs == node.children@,
            diagnostic_views(diagnostics@) == own + forest_errors(cs.take(i as int)),
        decreases node.children.len() - i,
    {
        proof {
            assert(cs.take(i + 1).drop_last() =~= cs.take(i as int));
            assert(cs.take(i + 1).last() == cs[i as int]);
        }
        collect_errors(&node.children[i], diagnostics);
        i += 1;
    }
    assert(cs.take(cs.len() as int) =~= cs);
    assert(diagnostic_views(diagnostics@) =~= start + tree_errors(*node));
}

/// Check a parsed file for syntax errors: one diagnostic per error or missing
/// node of the tree, in pre-order; a single "Failed to parse document" error
/// when there is no tree.
pub fn check(tree: Option<&SyntaxNode>) -> (diagnostics: Vec<Diagnostic>)
    ensures
        diagnostic_views(diagnostics@) == match tree {
            Some(root) => tree_errors(*root),
            None => seq![parse_failure()],
        },
{
    match tree {
        Some(root) => {
            let mut diagnostics: Vec<Diagnostic> = Vec::new();
            assert(diagnostic_views(diagnostics@) =~= Seq::<DiagnosticView>::empty());
            collect_errors(root, &mut diagnostics);
            assert(diagnostic_views(diagnostics@) =~= tree_errors(*root));
            diagnostics
        },
        None => {
            let mut message = String::new();
            push_str(&mut message, "Failed to parse document");
            let d = Diagnostic {
                line: 0,
                column: 0,
                end_line: 0,
                end_column: 0,
                message,
                severity: LegacySeverity::Error,
            };
            let mut diagnostics: Vec<Diagnostic> = Vec::new();
            diagnostics.push(d);
            assert(diagnostic_views(diagnostics@) =~= seq![parse_failure()]);
            diagnostics
        },
    }
}

} // verus!
