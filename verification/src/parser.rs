//! Conversion of a concrete syntax tree into the typed AST.
//!
//! Each grammar node becomes the AST value it stands for. A few nodes are
//! required to have a particular child (a requirement its ID, a concept its
//! name); where such a child is missing the element is left out, or, at the
//! top level, parsing fails.
use vstd::prelude::*;

use crate::ast::{
    Acceptance, AcceptanceClause, AcceptanceKind, Aesthetic, AestheticField, Behavior, Concept,
    Constraint, EarsClause, Field, ForeignBlock, Identifier, Import, ImportItem, ImportKind,
    Invariant, Prose, Quantifier, ReqId, Reference, Requirement, Section, SectionContent, SourceFile,
    SpecDecl, StringLit, Subsection, Task, TaskField, TaskFieldKind, TaskId, TypeExpr, TypedHole,
};
use crate::cst::SyntaxNode;
use crate::span::{dummy_span, Span};
use crate::text::{chars_of, contains, seq_contains, starts_with, str_eq, string_from_range};

verus! {

/// Errors that can occur during parsing.
#[derive(Debug)]
pub enum ParseError {
    /// Tree-sitter parsing failed.
    TreeSitterError,
    /// Unexpected node kind.
    UnexpectedNode { expected: &'static str, found: String },
    /// Missing required child node.
    MissingChild { name: &'static str },
}

/// The message of a parse error.
pub open spec fn parse_error_text(e: ParseError) -> Seq<char> {
    match e {
        ParseError::TreeSitterError => "parsing failed"@,
        ParseError::UnexpectedNode { expected, found } => "unexpected node kind: expected "@
            + expected@ + ", found "@ + found@,
        ParseError::MissingChild { name } => "missing required child: "@ + name@,
    }
}

impl ParseError {
    /// The error's message.
    pub fn message(&self) -> (r: String)
        ensures
            r@ == parse_error_text(*self),
    {
        let mut r = String::new();
        match self {
            ParseError::TreeSitterError => crate::text::push_str(&mut r, "parsing failed"),
            ParseError::UnexpectedNode { expected, found } => {
                crate::text::push_str(&mut r, "unexpected node kind: expected ");
                crate::text::push_str(&mut r, expected);
                crate::text::push_str(&mut r, ", found ");
                crate::text::push_str(&mut r, found.as_str());
            },
            ParseError::MissingChild { name } => {
                crate::text::push_str(&mut r, "missing required child: ");
                crate::text::push_str(&mut r, name);
            },
        }
        assert(r@ =~= parse_error_text(*self));
        r
    }
}

/// Result type for parsing operations.
pub type ParseResult<T> = Result<T, ParseError>;

/// `e` reports the missing child `name`.
pub open spec fn missing_child(e: ParseError, name: Seq<char>) -> bool {
    match e {
        ParseError::MissingChild { name: n } => n@ == name,
        _ => false,
    }
}

/// `e` reports an unexpected node where `expected` was expected, with text `found`.
pub open spec fn unexpected_node(e: ParseError, expected: Seq<char>, found: Seq<char>) -> bool {
    match e {
        ParseError::UnexpectedNode { expected: x, found: f } => x@ == expected && f@ == found,
        _ => false,
    }
}

// ============================================================================
// Children of a node
// ============================================================================

/// The first of `cs` of kind `k`.
pub open spec fn first_of_kind(cs: Seq<SyntaxNode>, k: Seq<char>) -> Option<SyntaxNode>
    decreases cs.len(),
{
    if cs.len() == 0 {
        None
    } else {
        match first_of_kind(cs.drop_last(), k) {
            Some(x) => Some(x),
            None => if cs.last().kind@ == k {
                Some(cs.last())
            } else {
                None
            },
        }
    }
}

/// The last of `cs` of kind `k`.
pub open spec fn last_of_kind(cs: Seq<SyntaxNode>, k: Seq<char>) -> Option<SyntaxNode>
    decreases cs.len(),
{
    if cs.len() == 0 {
        None
    } else if cs.last().kind@ == k {
        Some(cs.last())
    } else {
        last_of_kind(cs.drop_last(), k)
    }
}

/// Some node of `cs` has kind `k`.
pub open spec fn has_kind(cs: Seq<SyntaxNode>, k: Seq<char>) -> bool {
    first_of_kind(cs, k) is Some
}

/// The nodes of `cs` of kind `k`, in order.
pub open spec fn nodes_of_kind(cs: Seq<SyntaxNode>, k: Seq<char>) -> Seq<SyntaxNode>
    decreases cs.len(),
{
    if cs.len() == 0 {
        Seq::empty()
    } else {
        nodes_of_kind(cs.drop_last(), k) + if cs.last().kind@ == k {
            seq![cs.last()]
        } else {
            Seq::empty()
        }
    }
}

/// All but the first prose child: the body after a title.
pub open spec fn rest_prose(cs: Seq<SyntaxNode>) -> Seq<SyntaxNode> {
    let ps = nodes_of_kind(cs, "prose"@);
    if ps.len() > 0 {
        ps.drop_first()
    } else {
        ps
    }
}

/// `s` without leading or trailing `c`s (`str::trim_matches`).
pub open spec fn strip_char(s: Seq<char>, c: char) -> Seq<char> {
    strip_end(strip_start(s, c), c)
}

/// `s` without leading `c`s.
pub open spec fn strip_start(s: Seq<char>, c: char) -> Seq<char>
    decreases s.len(),
{
    if s.len() > 0 && s[0] == c {
        strip_start(s.drop_first(), c)
    } else {
        s
    }
}

/// `s` without trailing `c`s.
pub open spec fn strip_end(s: Seq<char>, c: char) -> Seq<char>
    decreases s.len(),
{
    if s.len() > 0 && s.last() == c {
        strip_end(s.drop_last(), c)
    } else {
        s
    }
}

/// `s` is one or more ASCII digits.
pub open spec fn all_digits(s: Seq<char>) -> bool {
    s.len() > 0 && forall|i: int| 0 <= i < s.len() ==> '0' <= #[trigger] s[i] <= '9'
}

/// The number the decimal digits of `s` write.
pub open spec fn digits_value(s: Seq<char>) -> int
    decreases s.len(),
{
    if s.len() == 0 {
        0
    } else {
        digits_value(s.drop_last()) * 10 + (s.last() as int - '0' as int)
    }
}

/// What `u64::from_str` gives: an optional `+`, then digits whose value fits.
pub open spec fn parse_u64(s: Seq<char>) -> Option<u64> {
    let d = if s.len() > 0 && s[0] == '+' {
        s.drop_first()
    } else {
        s
    };
    if all_digits(d) && digits_value(d) <= u64::MAX {
        Some(digits_value(d) as u64)
    } else {
        None
    }
}

// ============================================================================
// What each node is read as
// ============================================================================

/// `p` is the paragraph of node `n`.
pub open spec fn prose_of(p: Prose, n: SyntaxNode) -> bool {
    p.text@ == n.text@ && p.span == n.span
}

/// `p` is the empty paragraph that stands in for a missing one.
pub open spec fn empty_prose(p: Prose) -> bool {
    p.text@.len() == 0 && p.span == dummy_span()
}

/// `p` is the first prose child of `cs`, or empty when there is none.
pub open spec fn first_prose_of(p: Prose, cs: Seq<SyntaxNode>) -> bool {
    match first_of_kind(cs, "prose"@) {
        Some(n) => prose_of(p, n),
        None => empty_prose(p),
    }
}

/// `i` is the identifier of node `n`.
pub open spec fn ident_of(i: Identifier, n: SyntaxNode) -> bool {
    i.value@ == n.text@ && i.span == n.span
}

/// `r` is the requirement ID of node `n`.
pub open spec fn reqid_of(r: ReqId, n: SyntaxNode) -> bool {
    r.value@ == n.text@ && r.span == n.span
}

/// `r` is the reference of node `n`: its identifier child, else its text
/// without backticks.
pub open spec fn reference_of(r: Reference, n: SyntaxNode) -> bool {
    r.span == n.span && r.name@ == match first_of_kind(n.children@, "identifier"@) {
        Some(c) => c.text@,
        None => strip_char(n.text@, '`'),
    }
}

/// `s` is the string literal of node `n`, without its quotes.
pub open spec fn string_lit_of(s: StringLit, n: SyntaxNode) -> bool {
    s.value@ == strip_char(n.text@, '"') && s.span == n.span
}

/// `e` is the EARS clause of node `n`: its first two prose children, or two
/// empty paragraphs when it has fewer.
pub open spec fn ears_of(e: EarsClause, n: SyntaxNode) -> bool {
    let ps = nodes_of_kind(n.children@, "prose"@);
    e.span == n.span && if ps.len() >= 2 {
        prose_of(e.when, ps[0]) && prose_of(e.shall, ps[1])
    } else {
        empty_prose(e.when) && empty_prose(e.shall)
    }
}

/// The kind an acceptance clause's text gives it.
pub open spec fn acceptance_kind_of(text: Seq<char>) -> AcceptanceKind {
    if "given:"@.is_prefix_of(text) {
        AcceptanceKind::Given
    } else if "when:"@.is_prefix_of(text) {
        AcceptanceKind::When
    } else {
        AcceptanceKind::Then
    }
}

/// `c` is the acceptance clause of node `n`.
pub open spec fn acc_clause_of(c: AcceptanceClause, n: SyntaxNode) -> bool {
    c.span == n.span && c.kind == acceptance_kind_of(n.text@) && first_prose_of(
        c.content,
        n.children@,
    )
}

/// `a` is the acceptance block of node `n`.
pub open spec fn acceptance_of(a: Acceptance, n: SyntaxNode) -> bool {
    a.span == n.span && acc_seq_of(a.clauses@, nodes_of_kind(n.children@, "acc_clause"@))
}

/// `r` is the requirement of node `n`: its first identifier is the ID, its
/// first paragraph the title, the other paragraphs its prose; the last
/// acceptance block counts.
pub open spec fn requirement_of(r: Requirement, n: SyntaxNode) -> bool {
    let cs = n.children@;
    &&& r.span == n.span
    &&& reqid_of(r.id, first_of_kind(cs, "identifier"@)->0)
    &&& first_prose_of(r.title, cs)
    &&& prose_seq_of(r.prose@, rest_prose(cs))
    &&& ears_seq_of(r.ears_clauses@, nodes_of_kind(cs, "ears_clause"@))
    &&& match last_of_kind(cs, "acceptance"@) {
        Some(a) => r.acceptance matches Some(x) && acceptance_of(x, a),
        None => r.acceptance is None,
    }
}

/// `h` is the typed hole of node `n`.
pub open spec fn hole_of(h: TypedHole, n: SyntaxNode) -> bool {
    h.span == n.span && match first_of_kind(n.children@, "hole_content"@) {
        Some(c) => h.content matches Some(x) && x@ == c.text@,
        None => h.content is None,
    }
}

/// A type expression node can be read: it holds a hole, a reference or a variant list.
pub open spec fn type_ok(n: SyntaxNode) -> bool {
    has_kind(n.children@, "hole"@) || has_kind(n.children@, "reference"@) || has_kind(
        n.children@,
        "variant_list"@,
    )
}

/// `t` is the type expression of node `n`: a hole; else, with two references,
/// an application; with one, a list, an optional or a plain reference as its
/// text begins; else a variant list.
pub open spec fn type_of(t: TypeExpr, n: SyntaxNode) -> bool {
    let cs = n.children@;
    if has_kind(cs, "hole"@) {
        t matches TypeExpr::Hole(h) && hole_of(h, first_of_kind(cs, "hole"@)->0)
    } else if has_kind(cs, "reference"@) {
        let refs = nodes_of_kind(cs, "reference"@);
        if refs.len() >= 2 {
            t matches TypeExpr::Applied { base, arg, span } && reference_of(base, refs[0])
                && reference_of(arg, refs[1]) && span == n.span
        } else if "List"@.is_prefix_of(n.text@) {
            t matches TypeExpr::List { element, span } && reference_of(element, refs[0]) && span
                == n.span
        } else if "Optional"@.is_prefix_of(n.text@) {
            t matches TypeExpr::Optional { inner, span } && reference_of(inner, refs[0]) && span
                == n.span
        } else {
            t matches TypeExpr::Reference(r) && reference_of(r, refs[0])
        }
    } else {
        t matches TypeExpr::OneOf { variants, span } && span == n.span && ident_seq_of(
            variants@,
            nodes_of_kind(first_of_kind(cs, "variant_list"@)->0.children@, "identifier"@),
        )
    }
}

/// A constraint node can be read: its text is `unique` or begins with a known keyword.
pub open spec fn constraint_ok(n: SyntaxNode) -> bool {
    n.text@ == "unique"@ || "default:"@.is_prefix_of(n.text@) || "derived:"@.is_prefix_of(n.text@)
        || "invariant:"@.is_prefix_of(n.text@) || "at least"@.is_prefix_of(n.text@)
}

/// The count of an `at least` constraint: its number child's value, else 0.
pub open spec fn count_of(n: SyntaxNode) -> u64 {
    match first_of_kind(n.children@, "number"@) {
        Some(x) => match parse_u64(x.text@) {
            Some(v) => v,
            None => 0,
        },
        None => 0,
    }
}

/// `c` is the constraint of node `n`.
pub open spec fn constraint_of(c: Constraint, n: SyntaxNode) -> bool {
    let cs = n.children@;
    if n.text@ == "unique"@ {
        c matches Constraint::Unique { span } && span == n.span
    } else if "default:"@.is_prefix_of(n.text@) {
        c matches Constraint::Default { value, span } && first_prose_of(value, cs) && span == n.span
    } else if "derived:"@.is_prefix_of(n.text@) {
        c matches Constraint::Derived { expr, span } && first_prose_of(expr, cs) && span == n.span
    } else if "invariant:"@.is_prefix_of(n.text@) {
        c matches Constraint::Invariant { predicate, span } && first_prose_of(predicate, cs) && span
            == n.span
    } else {
        c matches Constraint::AtLeast { count, unit, span } && count == count_of(n) && span == n.span
            && match first_of_kind(cs, "identifier"@) {
            Some(u) => unit matches Some(x) && ident_of(x, u),
            None => unit is None,
        }
    }
}

/// `f` is the field of node `n`: its name, its type when its type child can
/// be read, its readable constraints.
pub open spec fn field_of(f: Field, n: SyntaxNode) -> bool {
    let cs = n.children@;
    &&& f.span == n.span
    &&& ident_of(f.name, first_of_kind(cs, "identifier"@)->0)
    &&& match first_of_kind(cs, "type_expr"@) {
        Some(t) => if type_ok(t) {
            f.ty matches Some(x) && type_of(x, t)
        } else {
            f.ty is None
        },
        None => f.ty is None,
    }
    &&& constraint_seq_of(f.constraints@, constraint_nodes(cs))
}

/// `c` is the concept of node `n`.
pub open spec fn concept_of(c: Concept, n: SyntaxNode) -> bool {
    let cs = n.children@;
    &&& c.span == n.span
    &&& ident_of(c.name, first_of_kind(cs, "identifier"@)->0)
    &&& field_seq_of(c.fields@, field_nodes(cs))
    &&& prose_seq_of(c.prose@, nodes_of_kind(cs, "prose"@))
}

/// A behavior body clause begins with one of the four clause keywords.
pub open spec fn keyed_body(text: Seq<char>) -> bool {
    "given:"@.is_prefix_of(text) || "returns:"@.is_prefix_of(text) || "requires:"@.is_prefix_of(
        text,
    ) || "ensures:"@.is_prefix_of(text)
}

/// The paragraphs of the body clauses of `cs` that begin with `key`.
pub open spec fn body_paragraphs(cs: Seq<SyntaxNode>, key: Seq<char>) -> Seq<SyntaxNode>
    decreases cs.len(),
{
    if cs.len() == 0 {
        Seq::empty()
    } else {
        let c = cs.last();
        body_paragraphs(cs.drop_last(), key) + if c.kind@ == "behavior_body"@ && key.is_prefix_of(
            c.text@,
        ) && has_kind(c.children@, "prose"@) {
            seq![first_of_kind(c.children@, "prose"@)->0]
        } else {
            Seq::empty()
        }
    }
}

/// The paragraph of the last `returns:` body clause of `cs` that has one.
pub open spec fn returns_paragraph(cs: Seq<SyntaxNode>) -> Option<SyntaxNode>
    decreases cs.len(),
{
    if cs.len() == 0 {
        None
    } else {
        let c = cs.last();
        if c.kind@ == "behavior_body"@ && "returns:"@.is_prefix_of(c.text@) && has_kind(
            c.children@,
            "prose"@,
        ) {
            first_of_kind(c.children@, "prose"@)
        } else {
            returns_paragraph(cs.drop_last())
        }
    }
}

/// The EARS clauses of a behavior, in order: its own, and those of body
/// clauses that begin with no keyword.
pub open spec fn behavior_ears(cs: Seq<SyntaxNode>) -> Seq<SyntaxNode>
    decreases cs.len(),
{
    if cs.len() == 0 {
        Seq::empty()
    } else {
        let c = cs.last();
        behavior_ears(cs.drop_last()) + if c.kind@ == "ears_clause"@ {
            seq![c]
        } else if c.kind@ == "behavior_body"@ && !keyed_body(c.text@) && has_kind(
            c.children@,
            "ears_clause"@,
        ) {
            seq![first_of_kind(c.children@, "ears_clause"@)->0]
        } else {
            Seq::empty()
        }
    }
}

/// The requirement identifiers of a behavior's implements clauses, in order.
pub open spec fn behavior_implements(cs: Seq<SyntaxNode>) -> Seq<SyntaxNode>
    decreases cs.len(),
{
    if cs.len() == 0 {
        Seq::empty()
    } else {
        let c = cs.last();
        behavior_implements(cs.drop_last()) + if c.kind@ == "implements_clause"@ {
            req_ident_nodes(c.children@)
        } else {
            Seq::empty()
        }
    }
}

/// `b` is the behavior of node `n`.
pub open spec fn behavior_of(b: Behavior, n: SyntaxNode) -> bool {
    let cs = n.children@;
    &&& b.span == n.span
    &&& ident_of(b.name, first_of_kind(cs, "identifier"@)->0)
    &&& reqid_seq_of(b.implements@, behavior_implements(cs))
    &&& prose_seq_of(b.given@, body_paragraphs(cs, "given:"@))
    &&& match returns_paragraph(cs) {
        Some(p) => b.returns matches Some(x) && prose_of(x, p),
        None => b.returns is None,
    }
    &&& prose_seq_of(b.requires@, body_paragraphs(cs, "requires:"@))
    &&& prose_seq_of(b.ensures@, body_paragraphs(cs, "ensures:"@))
    &&& ears_seq_of(b.ears_clauses@, behavior_ears(cs))
    &&& prose_seq_of(b.prose@, nodes_of_kind(cs, "prose"@))
}

/// `q` is the quantifier of node `n`.
pub open spec fn quantifier_of(q: Quantifier, n: SyntaxNode) -> bool {
    q.span == n.span && ident_of(q.var, first_of_kind(n.children@, "identifier"@)->0) && reference_of(
        q.collection,
        first_of_kind(n.children@, "reference"@)->0,
    )
}

/// `i` is the invariant of node `n`.
pub open spec fn invariant_of(i: Invariant, n: SyntaxNode) -> bool {
    let cs = n.children@;
    &&& i.span == n.span
    &&& ident_of(i.name, first_of_kind(cs, "identifier"@)->0)
    &&& quantifier_seq_of(i.quantifiers@, quantifier_nodes(cs))
    &&& prose_seq_of(i.prose@, nodes_of_kind(cs, "prose"@))
}

/// The kind a task field's text gives it.
pub open spec fn task_field_kind_of(text: Seq<char>) -> TaskFieldKind {
    if "file:"@.is_prefix_of(text) {
        TaskFieldKind::File
    } else if "tests:"@.is_prefix_of(text) {
        TaskFieldKind::Tests
    } else if "depends:"@.is_prefix_of(text) {
        TaskFieldKind::Depends
    } else if "status:"@.is_prefix_of(text) {
        TaskFieldKind::Status
    } else if "evidence:"@.is_prefix_of(text) {
        TaskFieldKind::Evidence
    } else {
        TaskFieldKind::Context
    }
}

/// `f` is the task field of node `n`.
pub open spec fn task_field_of(f: TaskField, n: SyntaxNode) -> bool {
    f.span == n.span && f.kind == task_field_kind_of(n.text@) && first_prose_of(f.value, n.children@)
}

/// `t` is the task of node `n`: its first identifier is the ID, its first
/// paragraph the title; the last reference list counts.
pub open spec fn task_of(t: Task, n: SyntaxNode) -> bool {
    let cs = n.children@;
    &&& t.span == n.span
    &&& t.id.value@ == first_of_kind(cs, "identifier"@)->0.text@
    &&& t.id.span == first_of_kind(cs, "identifier"@)->0.span
    &&& first_prose_of(t.title, cs)
    &&& prose_seq_of(t.prose@, rest_prose(cs))
    &&& reqid_seq_of(
        t.req_refs@,
        match last_of_kind(cs, "task_ref_list"@) {
            Some(l) => nodes_of_kind(l.children@, "identifier"@),
            None => Seq::empty(),
        },
    )
    &&& task_field_seq_of(t.fields@, nodes_of_kind(cs, "task_field"@))
}

/// `f` is the aesthetic field of node `n`; `[~]` in its text marks it soft.
pub open spec fn aesthetic_field_of(f: AestheticField, n: SyntaxNode) -> bool {
    f.span == n.span && ident_of(f.name, first_of_kind(n.children@, "identifier"@)->0) && f.is_soft
        == seq_contains(n.text@, "[~]"@) && first_prose_of(f.value, n.children@)
}

/// `a` is the aesthetic block of node `n`.
pub open spec fn aesthetic_of(a: Aesthetic, n: SyntaxNode) -> bool {
    let cs = n.children@;
    &&& a.span == n.span
    &&& ident_of(a.name, first_of_kind(cs, "identifier"@)->0)
    &&& aesthetic_field_seq_of(a.fields@, aesthetic_field_nodes(cs))
    &&& prose_seq_of(a.prose@, nodes_of_kind(cs, "prose"@))
}

/// `b` is the foreign block of node `n`.
pub open spec fn foreign_of(b: ForeignBlock, n: SyntaxNode) -> bool {
    let cs = n.children@;
    &&& b.span == n.span
    &&& b.language@ == match first_of_kind(cs, "language"@) {
        Some(l) => l.text@,
        None => Seq::empty(),
    }
    &&& prose_seq_of(b.content@, nodes_of_kind(cs, "prose"@))
}

/// `s` is the subsection of node `n`.
pub open spec fn subsection_of(s: Subsection, n: SyntaxNode) -> bool {
    s.span == n.span && first_prose_of(s.header, n.children@) && prose_seq_of(
        s.body@,
        rest_prose(n.children@),
    )
}

/// A node gives a section element: a known kind whose required child is present.
pub open spec fn content_ok(n: SyntaxNode) -> bool {
    let cs = n.children@;
    let k = n.kind@;
    ||| (k == "requirement"@ || k == "concept"@ || k == "behavior"@ || k == "invariant"@ || k
        == "task"@ || k == "aesthetic"@) && has_kind(cs, "identifier"@)
    ||| k == "foreign_block"@ || k == "subsection"@ || k == "prose"@
}

/// `c` is the section element of node `n`.
pub open spec fn content_of(c: SectionContent, n: SyntaxNode) -> bool {
    let k = n.kind@;
    if k == "requirement"@ {
        c matches SectionContent::Requirement(x) && requirement_of(x, n)
    } else if k == "concept"@ {
        c matches SectionContent::Concept(x) && concept_of(x, n)
    } else if k == "behavior"@ {
        c matches SectionContent::Behavior(x) && behavior_of(x, n)
    } else if k == "invariant"@ {
        c matches SectionContent::Invariant(x) && invariant_of(x, n)
    } else if k == "task"@ {
        c matches SectionContent::Task(x) && task_of(x, n)
    } else if k == "aesthetic"@ {
        c matches SectionContent::Aesthetic(x) && aesthetic_of(x, n)
    } else if k == "foreign_block"@ {
        c matches SectionContent::ForeignBlock(x) && foreign_of(x, n)
    } else if k == "subsection"@ {
        c matches SectionContent::Subsection(x) && subsection_of(x, n)
    } else {
        c matches SectionContent::Prose(x) && prose_of(x, n)
    }
}

/// `s` is the section of node `n`: its header's paragraph (empty without
/// one) and the elements its children give.
pub open spec fn section_of(s: Section, n: SyntaxNode) -> bool {
    let cs = n.children@;
    &&& s.span == n.span
    &&& match first_of_kind(cs, "header"@) {
        Some(h) => first_prose_of(s.header, h.children@),
        None => empty_prose(s.header),
    }
    &&& content_seq_of(s.contents@, content_nodes(cs))
}

/// `i` is the import item of node `n`.
pub open spec fn import_item_of(i: ImportItem, n: SyntaxNode) -> bool {
    let cs = n.children@;
    &&& i.span == n.span
    &&& reference_of(i.reference, first_of_kind(cs, "reference"@)->0)
    &&& match first_of_kind(cs, "identifier"@) {
        Some(a) => i.alias matches Some(x) && ident_of(x, a),
        None => i.alias is None,
    }
}

/// An import node can be read: a module import (`as`) needs a path and a name.
pub open spec fn import_ok(n: SyntaxNode) -> bool {
    let cs = n.children@;
    !has_kind(cs, "as"@) || (has_kind(cs, "string"@) && has_kind(cs, "identifier"@))
}

/// `i` is the import of node `n`.
pub open spec fn import_of(i: Import, n: SyntaxNode) -> bool {
    let cs = n.children@;
    i.span == n.span && if has_kind(cs, "as"@) {
        i.kind matches ImportKind::Module { path, alias } && string_lit_of(
            path,
            first_of_kind(cs, "string"@)->0,
        ) && ident_of(alias, first_of_kind(cs, "identifier"@)->0)
    } else {
        &&& i.kind matches ImportKind::Items { from, items }
        &&& (match first_of_kind(cs, "string"@) {
            Some(s) => from matches Some(f) && string_lit_of(f, s),
            None => from is None,
        })
        &&& (match first_of_kind(cs, "import_list"@) {
            Some(l) => import_item_seq_of(items@, import_item_nodes(l.children@)),
            None => items@.len() == 0,
        })
    }
}

/// A top-level node that stops parsing: a spec line without a name, or an
/// import that cannot be read.
pub open spec fn fails(c: SyntaxNode) -> bool {
    (c.kind@ == "spec_def"@ && !has_kind(c.children@, "identifier"@)) || (c.kind@ == "import_def"@
        && !import_ok(c))
}

/// The first top-level node that stops parsing.
pub open spec fn first_failure(cs: Seq<SyntaxNode>) -> Option<SyntaxNode>
    decreases cs.len(),
{
    if cs.len() == 0 {
        None
    } else {
        match first_failure(cs.drop_last()) {
            Some(x) => Some(x),
            None => if fails(cs.last()) {
                Some(cs.last())
            } else {
                None
            },
        }
    }
}

/// The child that a failing node lacks.
pub open spec fn missing_child_of(c: SyntaxNode) -> Seq<char> {
    if c.kind@ == "import_def"@ && !has_kind(c.children@, "string"@) {
        "string"@
    } else {
        "identifier"@
    }
}

/// `f` is the file of root node `n`: the last spec line counts; imports,
/// sections and top-level paragraphs in order.
pub open spec fn file_of(f: SourceFile, n: SyntaxNode) -> bool {
    let cs = n.children@;
    &&& f.span == n.span
    &&& match last_of_kind(cs, "spec_def"@) {
        Some(d) => f.spec matches Some(x) && x.span == d.span && ident_of(
            x.name,
            first_of_kind(d.children@, "identifier"@)->0,
        ),
        None => f.spec is None,
    }
    &&& import_seq_of(f.imports@, nodes_of_kind(cs, "import_def"@))
    &&& section_seq_of(f.sections@, nodes_of_kind(cs, "section"@))
    &&& prose_seq_of(f.prose@, nodes_of_kind(cs, "prose"@))
}

/// The `field` children that name a field, in order.
pub open spec fn field_nodes(cs: Seq<SyntaxNode>) -> Seq<SyntaxNode>
    decreases cs.len(),
{
    if cs.len() == 0 {
        Seq::empty()
    } else {
        let c = cs.last();
        field_nodes(cs.drop_last()) + if c.kind@ == "field"@ && has_kind(c.children@, "identifier"@) {
            seq![c]
        } else {
            Seq::empty()
        }
    }
}

/// The `constraint` children that parse, in order.
pub open spec fn constraint_nodes(cs: Seq<SyntaxNode>) -> Seq<SyntaxNode>
    decreases cs.len(),
{
    if cs.len() == 0 {
        Seq::empty()
    } else {
        let c = cs.last();
        constraint_nodes(cs.drop_last()) + if c.kind@ == "constraint"@ && constraint_ok(c) {
            seq![c]
        } else {
            Seq::empty()
        }
    }
}

/// The `quantifier` children that name a variable and a collection, in order.
pub open spec fn quantifier_nodes(cs: Seq<SyntaxNode>) -> Seq<SyntaxNode>
    decreases cs.len(),
{
    if cs.len() == 0 {
        Seq::empty()
    } else {
        let c = cs.last();
        quantifier_nodes(cs.drop_last()) + if c.kind@ == "quantifier"@ && has_kind(c.children@, "identifier"@) && has_kind(c.children@, "reference"@) {
            seq![c]
        } else {
            Seq::empty()
        }
    }
}

/// The `aesthetic_field` children that name a field, in order.
pub open spec fn aesthetic_field_nodes(cs: Seq<SyntaxNode>) -> Seq<SyntaxNode>
    decreases cs.len(),
{
    if cs.len() == 0 {
        Seq::empty()
    } else {
        let c = cs.last();
        aesthetic_field_nodes(cs.drop_last()) + if c.kind@ == "aesthetic_field"@ && has_kind(c.children@, "identifier"@) {
            seq![c]
        } else {
            Seq::empty()
        }
    }
}

/// The `import_item` children that hold a reference, in order.
pub open spec fn import_item_nodes(cs: Seq<SyntaxNode>) -> Seq<SyntaxNode>
    decreases cs.len(),
{
    if cs.len() == 0 {
        Seq::empty()
    } else {
        let c = cs.last();
        import_item_nodes(cs.drop_last()) + if c.kind@ == "import_item"@ && has_kind(c.children@, "reference"@) {
            seq![c]
        } else {
            Seq::empty()
        }
    }
}

/// The children that give a section element, in order.
pub open spec fn content_nodes(cs: Seq<SyntaxNode>) -> Seq<SyntaxNode>
    decreases cs.len(),
{
    if cs.len() == 0 {
        Seq::empty()
    } else {
        let c = cs.last();
        content_nodes(cs.drop_last()) + if content_ok(c) {
            seq![c]
        } else {
            Seq::empty()
        }
    }
}

/// The identifier children that name a requirement, in order.
pub open spec fn req_ident_nodes(cs: Seq<SyntaxNode>) -> Seq<SyntaxNode>
    decreases cs.len(),
{
    if cs.len() == 0 {
        Seq::empty()
    } else {
        let c = cs.last();
        req_ident_nodes(cs.drop_last()) + if c.kind@ == "identifier"@ && "REQ-"@.is_prefix_of(c.text@) {
            seq![c]
        } else {
            Seq::empty()
        }
    }
}

/// Each of the paragraphs `xs` was read from the matching node of `ns`.
pub open spec fn prose_seq_of(xs: Seq<Prose>, ns: Seq<SyntaxNode>) -> bool
    decreases xs.len(),
{
    xs.len() == ns.len() && (xs.len() > 0 ==> prose_seq_of(xs.drop_last(), ns.drop_last()) && prose_of(
        xs.last(),
        ns.last(),
    ))
}

/// Each of the identifiers `xs` was read from the matching node of `ns`.
pub open spec fn ident_seq_of(xs: Seq<Identifier>, ns: Seq<SyntaxNode>) -> bool
    decreases xs.len(),
{
    xs.len() == ns.len() && (xs.len() > 0 ==> ident_seq_of(xs.drop_last(), ns.drop_last()) && ident_of(
        xs.last(),
        ns.last(),
    ))
}

/// Each of the requirement IDs `xs` was read from the matching node of `ns`.
pub open spec fn reqid_seq_of(xs: Seq<ReqId>, ns: Seq<SyntaxNode>) -> bool
    decreases xs.len(),
{
    xs.len() == ns.len() && (xs.len() > 0 ==> reqid_seq_of(xs.drop_last(), ns.drop_last()) && reqid_of(
        xs.last(),
        ns.last(),
    ))
}

/// Each of the EARS clauses `xs` was read from the matching node of `ns`.
pub open spec fn ears_seq_of(xs: Seq<EarsClause>, ns: Seq<SyntaxNode>) -> bool
    decreases xs.len(),
{
    xs.len() == ns.len() && (xs.len() > 0 ==> ears_seq_of(xs.drop_last(), ns.drop_last()) && ears_of(
        xs.last(),
        ns.last(),
    ))
}

/// Each of the acceptance clauses `xs` was read from the matching node of `ns`.
pub open spec fn acc_seq_of(xs: Seq<AcceptanceClause>, ns: Seq<SyntaxNode>) -> bool
    decreases xs.len(),
{
    xs.len() == ns.len() && (xs.len() > 0 ==> acc_seq_of(xs.drop_last(), ns.drop_last()) && acc_clause_of(
        xs.last(),
        ns.last(),
    ))
}

/// Each of the fields `xs` was read from the matching node of `ns`.
pub open spec fn field_seq_of(xs: Seq<Field>, ns: Seq<SyntaxNode>) -> bool
    decreases xs.len(),
{
    xs.len() == ns.len() && (xs.len() > 0 ==> field_seq_of(xs.drop_last(), ns.drop_last()) && field_of(
        xs.last(),
        ns.last(),
    ))
}

/// Each of the constraints `xs` was read from the matching node of `ns`.
pub open spec fn constraint_seq_of(xs: Seq<Constraint>, ns: Seq<SyntaxNode>) -> bool
    decreases xs.len(),
{
    xs.len() == ns.len() && (xs.len() > 0 ==> constraint_seq_of(xs.drop_last(), ns.drop_last()) && constraint_of(
        xs.last(),
        ns.last(),
    ))
}

/// Each of the quantifiers `xs` was read from the matching node of `ns`.
pub open spec fn quantifier_seq_of(xs: Seq<Quantifier>, ns: Seq<SyntaxNode>) -> bool
    decreases xs.len(),
{
    xs.len() == ns.len() && (xs.len() > 0 ==> quantifier_seq_of(xs.drop_last(), ns.drop_last()) && quantifier_of(
        xs.last(),
        ns.last(),
    ))
}

/// Each of the task fields `xs` was read from the matching node of `ns`.
pub open spec fn task_field_seq_of(xs: Seq<TaskField>, ns: Seq<SyntaxNode>) -> bool
    decreases xs.len(),
{
    xs.len() == ns.len() && (xs.len() > 0 ==> task_field_seq_of(xs.drop_last(), ns.drop_last()) && task_field_of(
        xs.last(),
        ns.last(),
    ))
}

/// Each of the aesthetic fields `xs` was read from the matching node of `ns`.
pub open spec fn aesthetic_field_seq_of(xs: Seq<AestheticField>, ns: Seq<SyntaxNode>) -> bool
    decreases xs.len(),
{
    xs.len() == ns.len() && (xs.len() > 0 ==> aesthetic_field_seq_of(xs.drop_last(), ns.drop_last()) && aesthetic_field_of(
        xs.last(),
        ns.last(),
    ))
}

/// Each of the import items `xs` was read from the matching node of `ns`.
pub open spec fn import_item_seq_of(xs: Seq<ImportItem>, ns: Seq<SyntaxNode>) -> bool
    decreases xs.len(),
{
    xs.len() == ns.len() && (xs.len() > 0 ==> import_item_seq_of(xs.drop_last(), ns.drop_last()) && import_item_of(
        xs.last(),
        ns.last(),
    ))
}

/// Each of the imports `xs` was read from the matching node of `ns`.
pub open spec fn import_seq_of(xs: Seq<Import>, ns: Seq<SyntaxNode>) -> bool
    decreases xs.len(),
{
    xs.len() == ns.len() && (xs.len() > 0 ==> import_seq_of(xs.drop_last(), ns.drop_last()) && import_of(
        xs.last(),
        ns.last(),
    ))
}

/// Each of the sections `xs` was read from the matching node of `ns`.
pub open spec fn section_seq_of(xs: Seq<Section>, ns: Seq<SyntaxNode>) -> bool
    decreases xs.len(),
{
    xs.len() == ns.len() && (xs.len() > 0 ==> section_seq_of(xs.drop_last(), ns.drop_last()) && section_of(
        xs.last(),
        ns.last(),
    ))
}

/// Each of the section elements `xs` was read from the matching node of `ns`.
pub open spec fn content_seq_of(xs: Seq<SectionContent>, ns: Seq<SyntaxNode>) -> bool
    decreases xs.len(),
{
    xs.len() == ns.len() && (xs.len() > 0 ==> content_seq_of(xs.drop_last(), ns.drop_last()) && content_of(
        xs.last(),
        ns.last(),
    ))
}

// ============================================================================
// Reading nodes
// ============================================================================

/// The first child of `node` of kind `kind`.
pub(crate) fn find_child<'a>(node: &'a SyntaxNode, kind: &str) -> (r: Option<&'a SyntaxNode>)
    ensures
        match r {
            Some(c) => first_of_kind(node.children@, kind@) == Some(*c),
            None => first_of_kind(node.children@, kind@) is None,
        },
{
    let ghost cs = node.children@;
    let mut i: usize = 0;
    while i < node.children.len()
        invariant
            i <= cs.len(),
            cs == node.children@,
            first_of_kind(cs.take(i as int), kind@) is None,
        decreases node.children.len() - i,
    {
        proof {
            assert(cs.take(i + 1).drop_last() =~= cs.take(i as int));
        }
        if str_eq(node.children[i].kind.as_str(), kind) {
            proof {
                lemma_first_prefix(cs, kind@, i + 1);
            }
            return Some(&node.children[i]);
        }
        i += 1;
    }
    assert(cs.take(cs.len() as int) =~= cs);
    None
}

/// Once a prefix has a node of kind `k`, longer prefixes find the same first one.
proof fn lemma_first_prefix(cs: Seq<SyntaxNode>, k: Seq<char>, j: int)
    requires
        0 <= j <= cs.len(),
        first_of_kind(cs.take(j), k) is Some,
    ensures
        first_of_kind(cs, k) == first_of_kind(cs.take(j), k),
    decreases cs.len() - j,
{
    if j < cs.len() {
        assert(cs.take(j + 1).drop_last() =~= cs.take(j));
        lemma_first_prefix(cs, k, j + 1);
    } else {
        assert(cs.take(j) =~= cs);
    }
}

/// Whether `node` has a child of kind `kind`.
fn has_child(node: &SyntaxNode, kind: &str) -> (b: bool)
    ensures
        b == has_kind(node.children@, kind@),
{
    find_child(node, kind).is_some()
}

/// The paragraph of a prose node.
fn parse_prose(node: &SyntaxNode) -> (p: Prose)
    ensures
        prose_of(p, *node),
{
    Prose { text: node.text.clone(), span: node.span }
}

/// The empty paragraph that stands in for a missing one.
fn no_prose() -> (p: Prose)
    ensures
        empty_prose(p),
{
    let p = Prose::new("", Span::dummy());
    proof {
        reveal_strlit("");
    }
    p
}

/// The first prose child of `node`, or the empty paragraph.
fn first_prose(node: &SyntaxNode) -> (p: Prose)
    ensures
        first_prose_of(p, node.children@),
{
    match find_child(node, "prose") {
        Some(n) => parse_prose(n),
        None => no_prose(),
    }
}

/// The identifier of a node.
fn parse_identifier(node: &SyntaxNode) -> (i: Identifier)
    ensures
        ident_of(i, *node),
{
    Identifier { value: node.text.clone(), span: node.span }
}

/// The requirement ID of a node.
fn parse_req_id(node: &SyntaxNode) -> (r: ReqId)
    ensures
        reqid_of(r, *node),
{
    ReqId { value: node.text.clone(), span: node.span }
}

proof fn lemma_strip_start_skip(s: Seq<char>, c: char, i: int)
    requires
        0 <= i <= s.len(),
        forall|k: int| 0 <= k < i ==> s[k] == c,
    ensures
        strip_start(s, c) == strip_start(s.subrange(i, s.len() as int), c),
    decreases i,
{
    if i > 0 {
        let t = s.drop_first();
        assert forall|k: int| 0 <= k < i - 1 implies t[k] == c by {
            assert(t[k] == s[k + 1]);
        }
        lemma_strip_start_skip(t, c, i - 1);
        assert(t.subrange(i - 1, t.len() as int) =~= s.subrange(i, s.len() as int));
    } else {
        assert(s.subrange(0, s.len() as int) =~= s);
    }
}

proof fn lemma_strip_end_skip(s: Seq<char>, c: char, j: int)
    requires
        0 <= j <= s.len(),
        forall|k: int| j <= k < s.len() ==> s[k] == c,
    ensures
        strip_end(s, c) == strip_end(s.subrange(0, j), c),
    decreases s.len() - j,
{
    if j < s.len() {
        let t = s.drop_last();
        lemma_strip_end_skip(t, c, j);
        assert(t.subrange(0, j) =~= s.subrange(0, j));
    } else {
        assert(s.subrange(0, j) =~= s);
    }
}

/// `s` without leading or trailing `c`s.
fn strip_matches(s: &str, c: char) -> (r: String)
    ensures
        r@ == strip_char(s@, c),
{
    let v = chars_of(s);
    let mut i: usize = 0;
    while i < v.len() && v[i] == c
        invariant
            i <= v@.len(),
            forall|k: int| 0 <= k < i ==> v@[k] == c,
        decreases v.len() - i,
    {
        i += 1;
    }
    proof {
        lemma_strip_start_skip(v@, c, i as int);
        let t = v@.subrange(i as int, v@.len() as int);
        if t.len() > 0 {
            assert(t[0] != c);
        }
        assert(strip_start(t, c) == t);
    }
    let mut j: usize = v.len();
    while j > i && v[j - 1] == c
        invariant
            i <= j <= v@.len(),
            forall|k: int| j <= k < v@.len() ==> v@[k] == c,
        decreases j,
    {
        j -= 1;
    }
    proof {
        let t = v@.subrange(i as int, v@.len() as int);
        assert forall|k: int| j - i <= k < t.len() implies t[k] == c by {
            assert(t[k] == v@[i + k]);
        }
        lemma_strip_end_skip(t, c, j - i);
        let u = t.subrange(0, j - i);
        assert(u =~= v@.subrange(i as int, j as int));
        if u.len() > 0 {
            assert(u.last() == v@[j - 1]);
        }
        assert(strip_end(u, c) == u);
    }
    string_from_range(&v, i, j)
}

/// The reference of a node: its identifier child, else its text without backticks.
fn parse_reference(node: &SyntaxNode) -> (r: Reference)
    ensures
        reference_of(r, *node),
{
    let name = match find_child(node, "identifier") {
        Some(n) => n.text.clone(),
        None => strip_matches(node.text.as_str(), '`'),
    };
    Reference { name, span: node.span }
}

/// The string literal of a node, without its quotes.
fn parse_string_lit(node: &SyntaxNode) -> (s: StringLit)
    ensures
        string_lit_of(s, *node),
{
    StringLit { value: strip_matches(node.text.as_str(), '"'), span: node.span }
}

/// Later digits never make the value smaller.
proof fn lemma_digits_grow(s: Seq<char>, j: int)
    requires
        all_digits(s),
        0 <= j <= s.len(),
    ensures
        digits_value(s.take(j)) <= digits_value(s),
        0 <= digits_value(s.take(j)),
    decreases s.len() - j,
{
    if j < s.len() {
        lemma_digits_grow(s, j + 1);
        assert(s.take(j + 1).drop_last() =~= s.take(j));
        assert('0' <= s[j] <= '9');
        lemma_digits_nonneg(s.take(j));
    } else {
        assert(s.take(j) =~= s);
        lemma_digits_nonneg(s);
    }
}

/// Digits write a value of at least zero.
proof fn lemma_digits_nonneg(s: Seq<char>)
    requires
        forall|i: int| 0 <= i < s.len() ==> '0' <= #[trigger] s[i] <= '9',
    ensures
        0 <= digits_value(s),
    decreases s.len(),
{
    if s.len() > 0 {
        lemma_digits_nonneg(s.drop_last());
        assert('0' <= s.last() <= '9');
    }
}

/// `u64::from_str`: an optional `+`, then digits whose value fits.
pub fn parse_u64_text(s: &str) -> (r: Option<u64>)
    ensures
        r == parse_u64(s@),
{
    let v = chars_of(s);
    let start: usize = if v.len() > 0 && v[0] == '+' {
        1
    } else {
        0
    };
    let ghost d = if v@.len() > 0 && v@[0] == '+' {
        v@.drop_first()
    } else {
        v@
    };
    assert(d =~= v@.subrange(start as int, v@.len() as int));
    if start == v.len() {
        return None;
    }
    let mut value: u64 = 0;
    let mut i: usize = start;
    while i < v.len()
        invariant
            start <= i <= v@.len(),
            start < v@.len(),
            v@ == s@,
            d == (if s@.len() > 0 && s@[0] == '+' {
                s@.drop_first()
            } else {
                s@
            }),
            d == v@.subrange(start as int, v@.len() as int),
            forall|k: int| 0 <= k < i - start ==> '0' <= #[trigger] d[k] <= '9',
            value == digits_value(d.take(i - start)),
        decreases v.len() - i,
    {
        let ch = v[i];
        if !('0' <= ch && ch <= '9') {
            proof {
                assert(d[i - start] == ch);
                assert(!('0' <= d[i - start] <= '9'));
                assert(!all_digits(d));
            }
            return None;
        }
        let digit = (ch as u32 - '0' as u32) as u64;
        proof {
            assert(d.take(i - start + 1).drop_last() =~= d.take(i - start));
            assert(d.take(i - start + 1).last() == ch);
        }
        let ghost next = digits_value(d.take(i - start + 1));
        match value.checked_mul(10) {
            Some(m) => match m.checked_add(digit) {
                Some(x) => {
                    value = x;
                },
                None => {
                    proof {
                        assert(next == value * 10 + digit);
                        assert(next > u64::MAX);
                        if all_digits(d) {
                            lemma_digits_grow(d, i - start + 1);
                            assert(digits_value(d) > u64::MAX);
                        }
                    }
                    return None;
                },
            },
            None => {
                proof {
                    assert(value * 10 > u64::MAX);
                    if all_digits(d) {
                        lemma_digits_grow(d, i - start + 1);
                    }
                }
                return None;
            },
        }
        i += 1;
    }
    assert(d.take(d.len() as int) =~= d);
    Some(value)
}

/// Read an EARS clause: its first two paragraphs, or two empty ones.
fn parse_ears_clause(node: &SyntaxNode) -> (r: ParseResult<EarsClause>)
    ensures
        r matches Ok(e) && ears_of(e, *node),
{
    let ghost cs = node.children@;
    let mut proses: Vec<Prose> = Vec::new();
    let mut i: usize = 0;
    while i < node.children.len()
        invariant
            i <= cs.len(),
            cs == node.children@,
            prose_seq_of(proses@, nodes_of_kind(cs.take(i as int), "prose"@)),
        decreases node.children.len() - i,
    {
        proof {
            assert(cs.take(i + 1).drop_last() =~= cs.take(i as int));
            assert(cs.take(i + 1).last() == cs[i as int]);
        }
        let c = &node.children[i];
        if str_eq(c.kind.as_str(), "prose") {
            let x = parse_prose(c);
            let ghost o0 = proses@;
            let ghost gx = x;
            proses.push(x);
            proof {
                assert(proses@.drop_last() =~= o0);
                assert(nodes_of_kind(cs.take(i + 1), "prose"@) =~= nodes_of_kind(cs.take(i as int), "prose"@).push(*c));
                assert(nodes_of_kind(cs.take(i + 1), "prose"@).drop_last() =~= nodes_of_kind(cs.take(i as int), "prose"@));
                assert(nodes_of_kind(cs.take(i + 1), "prose"@).last() == *c);
                assert(proses@.last() == gx);
            }
        } else {
            proof {
                assert(nodes_of_kind(cs.take(i + 1), "prose"@) =~= nodes_of_kind(cs.take(i as int), "prose"@));
            }
        }
        i += 1;
    }
    assert(cs.take(cs.len() as int) =~= cs);

    let ghost ps = nodes_of_kind(cs, "prose"@);
    if proses.len() >= 2 {
        proof {
            lemma_prose_seq_prefix(proses@, ps, 2);
            lemma_prose_seq_prefix(proses@, ps, 1);
            assert(proses@.take(2).last() == proses@[1] && ps.take(2).last() == ps[1]);
            assert(proses@.take(1).last() == proses@[0] && ps.take(1).last() == ps[0]);
        }
        let when_p = Prose { text: proses[0].text.clone(), span: proses[0].span };
        let shall_p = Prose { text: proses[1].text.clone(), span: proses[1].span };
        Ok(EarsClause { when: when_p, shall: shall_p, span: node.span })
    } else {
        Ok(EarsClause { when: no_prose(), shall: no_prose(), span: node.span })
    }
}

/// A prefix of a paragraph list was read from the same prefix of nodes.
proof fn lemma_prose_seq_prefix(xs: Seq<Prose>, ns: Seq<SyntaxNode>, k: int)
    requires
        prose_seq_of(xs, ns),
        0 <= k <= xs.len(),
    ensures
        prose_seq_of(xs.take(k), ns.take(k)),
    decreases xs.len() - k,
{
    if k < xs.len() {
        lemma_prose_seq_prefix(xs, ns, k + 1);
        assert(xs.take(k + 1).drop_last() =~= xs.take(k));
        assert(ns.take(k + 1).drop_last() =~= ns.take(k));
    } else {
        assert(xs.take(k) =~= xs);
        assert(ns.take(k) =~= ns);
    }
}

/// The kind an acceptance clause's text gives it.
fn acceptance_kind(text: &str) -> (k: AcceptanceKind)
    ensures
        k == acceptance_kind_of(text@),
{
    if starts_with(text, "given:") {
        AcceptanceKind::Given
    } else if starts_with(text, "when:") {
        AcceptanceKind::When
    } else {
        AcceptanceKind::Then
    }
}

/// Read an acceptance clause.
fn parse_acceptance_clause(node: &SyntaxNode) -> (r: ParseResult<AcceptanceClause>)
    ensures
        r matches Ok(c) && acc_clause_of(c, *node),
{
    let kind = acceptance_kind(node.text.as_str());
    let content = first_prose(node);
    Ok(AcceptanceClause { kind, content, span: node.span })
}

/// Read an acceptance block.
fn parse_acceptance(node: &SyntaxNode) -> (r: ParseResult<Acceptance>)
    ensures
        r matches Ok(a) && acceptance_of(a, *node),
{
    let ghost cs = node.children@;
    let mut clauses: Vec<AcceptanceClause> = Vec::new();
    let mut i: usize = 0;
    while i < node.children.len()
        invariant
            i <= cs.len(),
            cs == node.children@,
            acc_seq_of(clauses@, nodes_of_kind(cs.take(i as int), "acc_clause"@)),
        decreases node.children.len() - i,
    {
        proof {
            assert(cs.take(i + 1).drop_last() =~= cs.take(i as int));
            assert(cs.take(i + 1).last() == cs[i as int]);
        }
        let c = &node.children[i];
        if str_eq(c.kind.as_str(), "acc_clause") {
            match parse_acceptance_clause(c) {
                Ok(x) => {
                    let ghost o0 = clauses@;
                    let ghost gx = x;
                    clauses.push(x);
                    proof {
                        assert(clauses@.drop_last() =~= o0);
                        assert(nodes_of_kind(cs.take(i + 1), "acc_clause"@) =~= nodes_of_kind(cs.take(i as int), "acc_clause"@).push(*c));
                        assert(nodes_of_kind(cs.take(i + 1), "acc_clause"@).drop_last() =~= nodes_of_kind(cs.take(i as int), "acc_clause"@));
                        assert(nodes_of_kind(cs.take(i + 1), "acc_clause"@).last() == *c);
                        assert(clauses@.last() == gx);
                    }
                },
                Err(_) => {
                    proof {
                        assert(nodes_of_kind(cs.take(i + 1), "acc_clause"@) =~= nodes_of_kind(cs.take(i as int), "acc_clause"@));
                    }
                },
            }
        } else {
            proof {
                assert(nodes_of_kind(cs.take(i + 1), "acc_clause"@) =~= nodes_of_kind(cs.take(i as int), "acc_clause"@));
            }
        }
        i += 1;
    }
    assert(cs.take(cs.len() as int) =~= cs);

    Ok(Acceptance { clauses, span: node.span })
}

/// The node kinds that a node is told apart by differ.
proof fn lemma_kinds_differ()
    ensures
        "acceptance"@ != "ears_clause"@,
        "acceptance"@ != "prose"@,
        "aesthetic_field"@ != "prose"@,
        "behavior_body"@ != "ears_clause"@,
        "behavior_body"@ != "implements_clause"@,
        "behavior_body"@ != "prose"@,
        "ears_clause"@ != "implements_clause"@,
        "ears_clause"@ != "prose"@,
        "field"@ != "prose"@,
        "implements_clause"@ != "prose"@,
        "import_def"@ != "prose"@,
        "import_def"@ != "section"@,
        "import_def"@ != "spec_def"@,
        "prose"@ != "quantifier"@,
        "prose"@ != "section"@,
        "prose"@ != "spec_def"@,
        "prose"@ != "task_field"@,
        "prose"@ != "task_ref_list"@,
        "section"@ != "spec_def"@,
        "task_field"@ != "task_ref_list"@,
{
    reveal_strlit("acceptance");
    reveal_strlit("aesthetic_field");
    reveal_strlit("behavior_body");
    reveal_strlit("ears_clause");
    reveal_strlit("field");
    reveal_strlit("implements_clause");
    reveal_strlit("import_def");
    reveal_strlit("prose");
    reveal_strlit("quantifier");
    reveal_strlit("section");
    reveal_strlit("spec_def");
    reveal_strlit("task_field");
    reveal_strlit("task_ref_list");
    assert("acceptance"@.len() != "ears_clause"@.len());
    assert("acceptance"@.len() != "prose"@.len());
    assert("aesthetic_field"@.len() != "prose"@.len());
    assert("behavior_body"@.len() != "ears_clause"@.len());
    assert("behavior_body"@.len() != "implements_clause"@.len());
    assert("behavior_body"@.len() != "prose"@.len());
    assert("ears_clause"@.len() != "implements_clause"@.len());
    assert("ears_clause"@.len() != "prose"@.len());
    assert("field"@[0] != "prose"@[0]);
    assert("implements_clause"@.len() != "prose"@.len());
    assert("import_def"@.len() != "prose"@.len());
    assert("import_def"@.len() != "section"@.len());
    assert("import_def"@.len() != "spec_def"@.len());
    assert("prose"@.len() != "quantifier"@.len());
    assert("prose"@.len() != "section"@.len());
    assert("prose"@.len() != "spec_def"@.len());
    assert("prose"@.len() != "task_field"@.len());
    assert("prose"@.len() != "task_ref_list"@.len());
    assert("section"@.len() != "spec_def"@.len());
    assert("task_field"@.len() != "task_ref_list"@.len());
}

/// The first node of kind `k` is the head of the nodes of that kind.
proof fn lemma_first_is_head(cs: Seq<SyntaxNode>, k: Seq<char>)
    ensures
        first_of_kind(cs, k) == (if nodes_of_kind(cs, k).len() > 0 {
            Some(nodes_of_kind(cs, k)[0])
        } else {
            None::<SyntaxNode>
        }),
    decreases cs.len(),
{
    if cs.len() > 0 {
        lemma_first_is_head(cs.drop_last(), k);
        let prev = nodes_of_kind(cs.drop_last(), k);
        if prev.len() > 0 {
            assert(nodes_of_kind(cs, k)[0] == prev[0]);
        }
    }
}

/// Reading one more prose child into a title and a body.
proof fn lemma_title_step(cs: Seq<SyntaxNode>, i: int, title: Prose, body: Seq<Prose>, new_title: Prose, new_body: Seq<Prose>)
    requires
        0 <= i < cs.len(),
        first_prose_of(title, cs.take(i)),
        prose_seq_of(body, rest_prose(cs.take(i))),
        cs[i].kind@ == "prose"@,
        nodes_of_kind(cs.take(i), "prose"@).len() == 0 ==> prose_of(new_title, cs[i]) && new_body == body,
        nodes_of_kind(cs.take(i), "prose"@).len() > 0 ==> new_title == title && new_body.len() == body.len() + 1 && new_body.drop_last() == body && prose_of(new_body.last(), cs[i]),
    ensures
        first_prose_of(new_title, cs.take(i + 1)),
        prose_seq_of(new_body, rest_prose(cs.take(i + 1))),
{
    let a = cs.take(i);
    let b = cs.take(i + 1);
    assert(b.drop_last() =~= a);
    assert(b.last() == cs[i]);
    let pa = nodes_of_kind(a, "prose"@);
    let pb = nodes_of_kind(b, "prose"@);
    assert(pb =~= pa.push(cs[i]));
    lemma_first_is_head(a, "prose"@);
    lemma_first_is_head(b, "prose"@);
    if pa.len() == 0 {
        assert(rest_prose(b) =~= Seq::<SyntaxNode>::empty());
        assert(rest_prose(a) =~= Seq::<SyntaxNode>::empty());
    } else {
        assert(rest_prose(b) =~= rest_prose(a).push(cs[i]));
        assert(rest_prose(b).drop_last() =~= rest_prose(a));
    }
}

/// Reading a child that is not prose leaves a title and a body as they were.
proof fn lemma_title_skip(cs: Seq<SyntaxNode>, i: int, title: Prose, body: Seq<Prose>)
    requires
        0 <= i < cs.len(),
        first_prose_of(title, cs.take(i)),
        prose_seq_of(body, rest_prose(cs.take(i))),
        cs[i].kind@ != "prose"@,
    ensures
        first_prose_of(title, cs.take(i + 1)),
        prose_seq_of(body, rest_prose(cs.take(i + 1))),
{
    let a = cs.take(i);
    let b = cs.take(i + 1);
    assert(b.drop_last() =~= a);
    assert(nodes_of_kind(b, "prose"@) =~= nodes_of_kind(a, "prose"@));
    lemma_first_is_head(a, "prose"@);
    lemma_first_is_head(b, "prose"@);
}

/// Read a requirement; it needs an identifier.
fn parse_requirement(node: &SyntaxNode) -> (r: ParseResult<Requirement>)
    ensures
        match r {
            Ok(x) => has_kind(node.children@, "identifier"@) && requirement_of(x, *node),
            Err(e) => !has_kind(node.children@, "identifier"@) && missing_child(e, "identifier"@),
        },
{
    let id = match find_child(node, "identifier") {
        Some(n) => parse_req_id(n),
        None => return Err(ParseError::MissingChild { name: "identifier" }),
    };
    let ghost cs = node.children@;
    let mut title = no_prose();
    let mut ears_clauses: Vec<EarsClause> = Vec::new();
    let mut acceptance: Option<Acceptance> = None;
    let mut prose: Vec<Prose> = Vec::new();
    let mut first = true;
    let mut i: usize = 0;
    assert(cs.take(0) =~= Seq::<SyntaxNode>::empty());
    while i < node.children.len()
        invariant
            i <= cs.len(),
            cs == node.children@,
            first == (nodes_of_kind(cs.take(i as int), "prose"@).len() == 0),
            first_prose_of(title, cs.take(i as int)),
            prose_seq_of(prose@, rest_prose(cs.take(i as int))),
            ears_seq_of(ears_clauses@, nodes_of_kind(cs.take(i as int), "ears_clause"@)),
            match last_of_kind(cs.take(i as int), "acceptance"@) {
                Some(a) => acceptance matches Some(x) && acceptance_of(x, a),
                None => acceptance is None,
            },
        decreases node.children.len() - i,
    {
        let c = &node.children[i];
        proof {
            assert(cs.take(i + 1).drop_last() =~= cs.take(i as int));
            assert(cs.take(i + 1).last() == cs[i as int]);
        }
        proof {
            lemma_kinds_differ();
            assert(*c == cs[i as int]);
        }
        if str_eq(c.kind.as_str(), "prose") {
            let p = parse_prose(c);
            let ghost gp = p;
            let ghost t0 = title;
            let ghost b0 = prose@;
            let ghost was_first = first;
            if first {
                title = p;
                first = false;
            } else {
                prose.push(p);
            }
            proof {
                if !was_first {
                    assert(prose@ == b0.push(gp));
                    assert(prose@.drop_last() =~= b0);
                    assert(prose@.last() == gp);
                }
                lemma_title_step(cs, i as int, t0, b0, title, prose@);
                assert(nodes_of_kind(cs.take(i + 1), "ears_clause"@) =~= nodes_of_kind(cs.take(i as int), "ears_clause"@));
                assert(last_of_kind(cs.take(i + 1), "acceptance"@) == last_of_kind(cs.take(i as int), "acceptance"@));
            }
        } else {
            proof {
                lemma_title_skip(cs, i as int, title, prose@);
            }
            if str_eq(c.kind.as_str(), "ears_clause") {
                match parse_ears_clause(c) {
                    Ok(clause) => {
                        let ghost o0 = ears_clauses@;
                        let ghost g = clause;
                        ears_clauses.push(clause);
                        proof {
                            let s0 = nodes_of_kind(cs.take(i as int), "ears_clause"@);
                            let s1 = nodes_of_kind(cs.take(i + 1), "ears_clause"@);
                            assert(s1 =~= s0.push(*c));
                            assert(s1.drop_last() =~= s0);
                            assert(ears_clauses@.drop_last() =~= o0);
                            assert(ears_clauses@.last() == g);
                            assert(last_of_kind(cs.take(i + 1), "acceptance"@) == last_of_kind(cs.take(i as int), "acceptance"@));
                        }
                    },
                    Err(_) => {},
                }
            } else {
                proof {
                    assert(nodes_of_kind(cs.take(i + 1), "ears_clause"@) =~= nodes_of_kind(cs.take(i as int), "ears_clause"@));
                }
                if str_eq(c.kind.as_str(), "acceptance") {
                    acceptance = match parse_acceptance(c) {
                        Ok(a) => Some(a),
                        Err(_) => None,
                    };
                    proof {
                        assert(last_of_kind(cs.take(i + 1), "acceptance"@) == Some(*c));
                    }
                } else {
                    proof {
                        assert(last_of_kind(cs.take(i + 1), "acceptance"@) == last_of_kind(cs.take(i as int), "acceptance"@));
                    }
                }
            }
        }
        i += 1;
    }
    assert(cs.take(cs.len() as int) =~= cs);
    Ok(Requirement { id, title, ears_clauses, acceptance, prose, span: node.span })
}

/// Read a typed hole.
fn parse_hole(node: &SyntaxNode) -> (h: TypedHole)
    ensures
        hole_of(h, *node),
{
    let content = match find_child(node, "hole_content") {
        Some(n) => Some(n.text.clone()),
        None => None,
    };
    TypedHole { content, span: node.span }
}

/// Read a variant list: its identifiers.
fn parse_variant_list(node: &SyntaxNode) -> (r: Vec<Identifier>)
    ensures
        ident_seq_of(r@, nodes_of_kind(node.children@, "identifier"@)),
{
    let ghost cs = node.children@;
    let mut variants: Vec<Identifier> = Vec::new();
    let mut i: usize = 0;
    while i < node.children.len()
        invariant
            i <= cs.len(),
            cs == node.children@,
            ident_seq_of(variants@, nodes_of_kind(cs.take(i as int), "identifier"@)),
        decreases node.children.len() - i,
    {
        proof {
            assert(cs.take(i + 1).drop_last() =~= cs.take(i as int));
            assert(cs.take(i + 1).last() == cs[i as int]);
        }
        let c = &node.children[i];
        if str_eq(c.kind.as_str(), "identifier") {
            let x = parse_identifier(c);
            let ghost o0 = variants@;
            let ghost gx = x;
            variants.push(x);
            proof {
                assert(variants@.drop_last() =~= o0);
                assert(nodes_of_kind(cs.take(i + 1), "identifier"@) =~= nodes_of_kind(cs.take(i as int), "identifier"@).push(*c));
                assert(nodes_of_kind(cs.take(i + 1), "identifier"@).drop_last() =~= nodes_of_kind(cs.take(i as int), "identifier"@));
                assert(nodes_of_kind(cs.take(i + 1), "identifier"@).last() == *c);
                assert(variants@.last() == gx);
            }
        } else {
            proof {
                assert(nodes_of_kind(cs.take(i + 1), "identifier"@) =~= nodes_of_kind(cs.take(i as int), "identifier"@));
            }
        }
        i += 1;
    }
    assert(cs.take(cs.len() as int) =~= cs);

    variants
}

/// The references among the children, in order.
fn reference_children(node: &SyntaxNode) -> (r: Vec<Reference>)
    ensures
        r@.len() == nodes_of_kind(node.children@, "reference"@).len(),
        forall|j: int| 0 <= j < r@.len() ==> reference_of(r@[j], #[trigger] nodes_of_kind(node.children@, "reference"@)[j]),
{
    let ghost cs = node.children@;
    let mut refs: Vec<Reference> = Vec::new();
    let mut i: usize = 0;
    while i < node.children.len()
        invariant
            i <= cs.len(),
            cs == node.children@,
            refs@.len() == nodes_of_kind(cs.take(i as int), "reference"@).len(),
            forall|j: int| 0 <= j < refs@.len() ==> reference_of(refs@[j], #[trigger] nodes_of_kind(cs.take(i as int), "reference"@)[j]),
        decreases node.children.len() - i,
    {
        proof {
            assert(cs.take(i + 1).drop_last() =~= cs.take(i as int));
            assert(cs.take(i + 1).last() == cs[i as int]);
        }
        let c = &node.children[i];
        let ghost s0 = nodes_of_kind(cs.take(i as int), "reference"@);
        if str_eq(c.kind.as_str(), "reference") {
            let x = parse_reference(c);
            let ghost r0 = refs@;
            refs.push(x);
            proof {
                let s1 = nodes_of_kind(cs.take(i + 1), "reference"@);
                assert(s1 =~= s0.push(*c));
                assert forall|j: int| 0 <= j < refs@.len() implies reference_of(refs@[j], #[trigger] s1[j]) by {
                    if j < r0.len() {
                        assert(refs@[j] == r0[j]);
                        assert(s1[j] == s0[j]);
                    }
                }
            }
        } else {
            proof {
                assert(nodes_of_kind(cs.take(i + 1), "reference"@) =~= s0);
            }
        }
        i += 1;
    }
    assert(cs.take(cs.len() as int) =~= cs);
    refs
}

/// Read a type expression.
fn parse_type_expr(node: &SyntaxNode) -> (r: ParseResult<TypeExpr>)
    ensures
        match r {
            Ok(t) => type_ok(*node) && type_of(t, *node),
            Err(e) => !type_ok(*node) && unexpected_node(e, "type_expr"@, node.kind@),
        },
{
    let span = node.span;
    if let Some(hole_node) = find_child(node, "hole") {
        return Ok(TypeExpr::Hole(parse_hole(hole_node)));
    }
    if has_child(node, "reference") {
        let refs = reference_children(node);
        proof {
            lemma_first_is_head(node.children@, "reference"@);
        }
        if refs.len() >= 2 {
            return Ok(TypeExpr::Applied { base: refs[0].clone(), arg: refs[1].clone(), span });
        }
        if starts_with(node.text.as_str(), "List") {
            return Ok(TypeExpr::List { element: refs[0].clone(), span });
        }
        if starts_with(node.text.as_str(), "Optional") {
            return Ok(TypeExpr::Optional { inner: refs[0].clone(), span });
        }
        return Ok(TypeExpr::Reference(refs[0].clone()));
    }
    if let Some(variant_list) = find_child(node, "variant_list") {
        let variants = parse_variant_list(variant_list);
        return Ok(TypeExpr::OneOf { variants, span });
    }
    Err(ParseError::UnexpectedNode { expected: "type_expr", found: node.kind.clone() })
}

/// Read a constraint: `unique`, `default:`, `derived:`, `invariant:` or `at least`.
fn parse_constraint(node: &SyntaxNode) -> (r: ParseResult<Constraint>)
    ensures
        match r {
            Ok(c) => constraint_ok(*node) && constraint_of(c, *node),
            Err(e) => !constraint_ok(*node) && unexpected_node(e, "constraint"@, node.text@),
        },
{
    let span = node.span;
    let text = node.text.as_str();
    if str_eq(text, "unique") {
        return Ok(Constraint::Unique { span });
    }
    if starts_with(text, "default:") {
        return Ok(Constraint::Default { value: first_prose(node), span });
    }
    if starts_with(text, "derived:") {
        return Ok(Constraint::Derived { expr: first_prose(node), span });
    }
    if starts_with(text, "invariant:") {
        return Ok(Constraint::Invariant { predicate: first_prose(node), span });
    }
    if starts_with(text, "at least") {
        let count = match find_child(node, "number") {
            Some(n) => match parse_u64_text(n.text.as_str()) {
                Some(v) => v,
                None => 0,
            },
            None => 0,
        };
        let unit = match find_child(node, "identifier") {
            Some(n) => Some(parse_identifier(n)),
            None => None,
        };
        return Ok(Constraint::AtLeast { count, unit, span });
    }
    Err(ParseError::UnexpectedNode { expected: "constraint", found: node.text.clone() })
}

/// Read a field; it needs an identifier.
fn parse_field(node: &SyntaxNode) -> (r: ParseResult<Field>)
    ensures
        match r {
            Ok(f) => has_kind(node.children@, "identifier"@) && field_of(f, *node),
            Err(e) => !has_kind(node.children@, "identifier"@) && missing_child(e, "identifier"@),
        },
{
    let name = match find_child(node, "identifier") {
        Some(n) => parse_identifier(n),
        None => return Err(ParseError::MissingChild { name: "identifier" }),
    };
    let ty = match find_child(node, "type_expr") {
        Some(t) => match parse_type_expr(t) {
            Ok(x) => Some(x),
            Err(_) => None,
        },
        None => None,
    };
    let ghost cs = node.children@;
    let mut constraints: Vec<Constraint> = Vec::new();
    let mut i: usize = 0;
    while i < node.children.len()
        invariant
            i <= cs.len(),
            cs == node.children@,
            constraint_seq_of(constraints@, constraint_nodes(cs.take(i as int))),
        decreases node.children.len() - i,
    {
        proof {
            assert(cs.take(i + 1).drop_last() =~= cs.take(i as int));
            assert(cs.take(i + 1).last() == cs[i as int]);
        }
        let c = &node.children[i];
        if str_eq(c.kind.as_str(), "constraint") {
            match parse_constraint(c) {
                Ok(x) => {
                    let ghost o0 = constraints@;
                    let ghost gx = x;
                    constraints.push(x);
                    proof {
                        assert(constraints@.drop_last() =~= o0);
                        assert(constraint_nodes(cs.take(i + 1)) =~= constraint_nodes(cs.take(i as int)).push(*c));
                        assert(constraint_nodes(cs.take(i + 1)).drop_last() =~= constraint_nodes(cs.take(i as int)));
                        assert(constraint_nodes(cs.take(i + 1)).last() == *c);
                        assert(constraints@.last() == gx);
                    }
                },
                Err(_) => {
                    proof {
                        assert(constraint_nodes(cs.take(i + 1)) =~= constraint_nodes(cs.take(i as int)));
                    }
                },
            }
        } else {
            proof {
                assert(constraint_nodes(cs.take(i + 1)) =~= constraint_nodes(cs.take(i as int)));
            }
        }
        i += 1;
    }
    assert(cs.take(cs.len() as int) =~= cs);

    Ok(Field { name, ty, constraints, span: node.span })
}

/// Read a concept; it needs an identifier.
fn parse_concept(node: &SyntaxNode) -> (r: ParseResult<Concept>)
    ensures
        match r {
            Ok(c) => has_kind(node.children@, "identifier"@) && concept_of(c, *node),
            Err(e) => !has_kind(node.children@, "identifier"@) && missing_child(e, "identifier"@),
        },
{
    let name = match find_child(node, "identifier") {
        Some(n) => parse_identifier(n),
        None => return Err(ParseError::MissingChild { name: "identifier" }),
    };
    let ghost cs = node.children@;
    let mut fields: Vec<Field> = Vec::new();
    let mut i: usize = 0;
    while i < node.children.len()
        invariant
            i <= cs.len(),
            cs == node.children@,
            field_seq_of(fields@, field_nodes(cs.take(i as int))),
        decreases node.children.len() - i,
    {
        proof {
            assert(cs.take(i + 1).drop_last() =~= cs.take(i as int));
            assert(cs.take(i + 1).last() == cs[i as int]);
        }
        let c = &node.children[i];
        if str_eq(c.kind.as_str(), "field") {
            match parse_field(c) {
                Ok(x) => {
                    let ghost o0 = fields@;
                    let ghost gx = x;
                    fields.push(x);
                    proof {
                        assert(fields@.drop_last() =~= o0);
                        assert(field_nodes(cs.take(i + 1)) =~= field_nodes(cs.take(i as int)).push(*c));
                        assert(field_nodes(cs.take(i + 1)).drop_last() =~= field_nodes(cs.take(i as int)));
                        assert(field_nodes(cs.take(i + 1)).last() == *c);
                        assert(fields@.last() == gx);
                    }
                },
                Err(_) => {
                    proof {
                        assert(field_nodes(cs.take(i + 1)) =~= field_nodes(cs.take(i as int)));
                    }
                },
            }
        } else {
            proof {
                assert(field_nodes(cs.take(i + 1)) =~= field_nodes(cs.take(i as int)));
            }
        }
        i += 1;
    }
    assert(cs.take(cs.len() as int) =~= cs);

    let prose = prose_children(node);
    Ok(Concept { name, fields, prose, span: node.span })
}

/// The prose children of a node, in order.
fn prose_children(node: &SyntaxNode) -> (r: Vec<Prose>)
    ensures
        prose_seq_of(r@, nodes_of_kind(node.children@, "prose"@)),
{
    let ghost cs = node.children@;
    let mut prose: Vec<Prose> = Vec::new();
    let mut i: usize = 0;
    while i < node.children.len()
        invariant
            i <= cs.len(),
            cs == node.children@,
            prose_seq_of(prose@, nodes_of_kind(cs.take(i as int), "prose"@)),
        decreases node.children.len() - i,
    {
        proof {
            assert(cs.take(i + 1).drop_last() =~= cs.take(i as int));
            assert(cs.take(i + 1).last() == cs[i as int]);
        }
        let c = &node.children[i];
        if str_eq(c.kind.as_str(), "prose") {
            let x = parse_prose(c);
            let ghost o0 = prose@;
            let ghost gx = x;
            prose.push(x);
            proof {
                assert(prose@.drop_last() =~= o0);
                assert(nodes_of_kind(cs.take(i + 1), "prose"@) =~= nodes_of_kind(cs.take(i as int), "prose"@).push(*c));
                assert(nodes_of_kind(cs.take(i + 1), "prose"@).drop_last() =~= nodes_of_kind(cs.take(i as int), "prose"@));
                assert(nodes_of_kind(cs.take(i + 1), "prose"@).last() == *c);
                assert(prose@.last() == gx);
            }
        } else {
            proof {
                assert(nodes_of_kind(cs.take(i + 1), "prose"@) =~= nodes_of_kind(cs.take(i as int), "prose"@));
            }
        }
        i += 1;
    }
    assert(cs.take(cs.len() as int) =~= cs);

    prose
}

/// Read a quantifier; it needs an identifier and a reference.
fn parse_quantifier(node: &SyntaxNode) -> (r: ParseResult<Quantifier>)
    ensures
        match r {
            Ok(q) => has_kind(node.children@, "identifier"@) && has_kind(node.children@, "reference"@)
                && quantifier_of(q, *node),
            Err(e) => !(has_kind(node.children@, "identifier"@) && has_kind(node.children@, "reference"@)),
        },
{
    let var = match find_child(node, "identifier") {
        Some(n) => parse_identifier(n),
        None => return Err(ParseError::MissingChild { name: "identifier" }),
    };
    let collection = match find_child(node, "reference") {
        Some(n) => parse_reference(n),
        None => return Err(ParseError::MissingChild { name: "reference" }),
    };
    Ok(Quantifier { var, collection, span: node.span })
}

/// Read an invariant; it needs an identifier.
fn parse_invariant(node: &SyntaxNode) -> (r: ParseResult<Invariant>)
    ensures
        match r {
            Ok(x) => has_kind(node.children@, "identifier"@) && invariant_of(x, *node),
            Err(e) => !has_kind(node.children@, "identifier"@) && missing_child(e, "identifier"@),
        },
{
    let name = match find_child(node, "identifier") {
        Some(n) => parse_identifier(n),
        None => return Err(ParseError::MissingChild { name: "identifier" }),
    };
    let ghost cs = node.children@;
    let mut quantifiers: Vec<Quantifier> = Vec::new();
    let mut i: usize = 0;
    while i < node.children.len()
        invariant
            i <= cs.len(),
            cs == node.children@,
            quantifier_seq_of(quantifiers@, quantifier_nodes(cs.take(i as int))),
        decreases node.children.len() - i,
    {
        proof {
            assert(cs.take(i + 1).drop_last() =~= cs.take(i as int));
            assert(cs.take(i + 1).last() == cs[i as int]);
        }
        let c = &node.children[i];
        if str_eq(c.kind.as_str(), "quantifier") {
            match parse_quantifier(c) {
                Ok(x) => {
                    let ghost o0 = quantifiers@;
                    let ghost gx = x;
                    quantifiers.push(x);
                    proof {
                        assert(quantifiers@.drop_last() =~= o0);
                        assert(quantifier_nodes(cs.take(i + 1)) =~= quantifier_nodes(cs.take(i as int)).push(*c));
                        assert(quantifier_nodes(cs.take(i + 1)).drop_last() =~= quantifier_nodes(cs.take(i as int)));
                        assert(quantifier_nodes(cs.take(i + 1)).last() == *c);
                        assert(quantifiers@.last() == gx);
                    }
                },
                Err(_) => {
                    proof {
                        assert(quantifier_nodes(cs.take(i + 1)) =~= quantifier_nodes(cs.take(i as int)));
                    }
                },
            }
        } else {
            proof {
                assert(quantifier_nodes(cs.take(i + 1)) =~= quantifier_nodes(cs.take(i as int)));
            }
        }
        i += 1;
    }
    assert(cs.take(cs.len() as int) =~= cs);

    let prose = prose_children(node);
    Ok(Invariant { name, quantifiers, prose, span: node.span })
}

/// The kind a task field's text gives it.
fn task_field_kind(text: &str) -> (k: TaskFieldKind)
    ensures
        k == task_field_kind_of(text@),
{
    if starts_with(text, "file:") {
        TaskFieldKind::File
    } else if starts_with(text, "tests:") {
        TaskFieldKind::Tests
    } else if starts_with(text, "depends:") {
        TaskFieldKind::Depends
    } else if starts_with(text, "status:") {
        TaskFieldKind::Status
    } else if starts_with(text, "evidence:") {
        TaskFieldKind::Evidence
    } else {
        TaskFieldKind::Context
    }
}

/// Read a task field.
fn parse_task_field(node: &SyntaxNode) -> (r: ParseResult<TaskField>)
    ensures
        r matches Ok(f) && task_field_of(f, *node),
{
    let kind = task_field_kind(node.text.as_str());
    let value = first_prose(node);
    Ok(TaskField { kind, value, span: node.span })
}

/// Read a task reference list: its identifiers as requirement IDs.
fn parse_task_ref_list(node: &SyntaxNode) -> (r: Vec<ReqId>)
    ensures
        reqid_seq_of(r@, nodes_of_kind(node.children@, "identifier"@)),
{
    let ghost cs = node.children@;
    let mut refs: Vec<ReqId> = Vec::new();
    let mut i: usize = 0;
    while i < node.children.len()
        invariant
            i <= cs.len(),
            cs == node.children@,
            reqid_seq_of(refs@, nodes_of_kind(cs.take(i as int), "identifier"@)),
        decreases node.children.len() - i,
    {
        proof {
            assert(cs.take(i + 1).drop_last() =~= cs.take(i as int));
            assert(cs.take(i + 1).last() == cs[i as int]);
        }
        let c = &node.children[i];
        if str_eq(c.kind.as_str(), "identifier") {
            let x = parse_req_id(c);
            let ghost o0 = refs@;
            let ghost gx = x;
            refs.push(x);
            proof {
                assert(refs@.drop_last() =~= o0);
                assert(nodes_of_kind(cs.take(i + 1), "identifier"@) =~= nodes_of_kind(cs.take(i as int), "identifier"@).push(*c));
                assert(nodes_of_kind(cs.take(i + 1), "identifier"@).drop_last() =~= nodes_of_kind(cs.take(i as int), "identifier"@));
                assert(nodes_of_kind(cs.take(i + 1), "identifier"@).last() == *c);
                assert(refs@.last() == gx);
            }
        } else {
            proof {
                assert(nodes_of_kind(cs.take(i + 1), "identifier"@) =~= nodes_of_kind(cs.take(i as int), "identifier"@));
            }
        }
        i += 1;
    }
    assert(cs.take(cs.len() as int) =~= cs);

    refs
}

/// Read an aesthetic field; it needs an identifier.
fn parse_aesthetic_field(node: &SyntaxNode) -> (r: ParseResult<AestheticField>)
    ensures
        match r {
            Ok(f) => has_kind(node.children@, "identifier"@) && aesthetic_field_of(f, *node),
            Err(e) => !has_kind(node.children@, "identifier"@) && missing_child(e, "identifier"@),
        },
{
    let name = match find_child(node, "identifier") {
        Some(n) => parse_identifier(n),
        None => return Err(ParseError::MissingChild { name: "identifier" }),
    };
    let is_soft = contains(node.text.as_str(), "[~]");
    let value = first_prose(node);
    Ok(AestheticField { name, is_soft, value, span: node.span })
}

/// Read an aesthetic block; it needs an identifier.
fn parse_aesthetic(node: &SyntaxNode) -> (r: ParseResult<Aesthetic>)
    ensures
        match r {
            Ok(a) => has_kind(node.children@, "identifier"@) && aesthetic_of(a, *node),
            Err(e) => !has_kind(node.children@, "identifier"@) && missing_child(e, "identifier"@),
        },
{
    let name = match find_child(node, "identifier") {
        Some(n) => parse_identifier(n),
        None => return Err(ParseError::MissingChild { name: "identifier" }),
    };
    let ghost cs = node.children@;
    let mut fields: Vec<AestheticField> = Vec::new();
    let mut i: usize = 0;
    while i < node.children.len()
        invariant
            i <= cs.len(),
            cs == node.children@,
            aesthetic_field_seq_of(fields@, aesthetic_field_nodes(cs.take(i as int))),
        decreases node.children.len() - i,
    {
        proof {
            assert(cs.take(i + 1).drop_last() =~= cs.take(i as int));
            assert(cs.take(i + 1).last() == cs[i as int]);
        }
        let c = &node.children[i];
        if str_eq(c.kind.as_str(), "aesthetic_field") {
            match parse_aesthetic_field(c) {
                Ok(x) => {
                    let ghost o0 = fields@;
                    let ghost gx = x;
                    fields.push(x);
                    proof {
                        assert(fields@.drop_last() =~= o0);
                        assert(aesthetic_field_nodes(cs.take(i + 1)) =~= aesthetic_field_nodes(cs.take(i as int)).push(*c));
                        assert(aesthetic_field_nodes(cs.take(i + 1)).drop_last() =~= aesthetic_field_nodes(cs.take(i as int)));
                        assert(aesthetic_field_nodes(cs.take(i + 1)).last() == *c);
                        assert(fields@.last() == gx);
                    }
                },
                Err(_) => {
                    proof {
                        assert(aesthetic_field_nodes(cs.take(i + 1)) =~= aesthetic_field_nodes(cs.take(i as int)));
                    }
                },
            }
        } else {
            proof {
                assert(aesthetic_field_nodes(cs.take(i + 1)) =~= aesthetic_field_nodes(cs.take(i as int)));
            }
        }
        i += 1;
    }
    assert(cs.take(cs.len() as int) =~= cs);

    let prose = prose_children(node);
    Ok(Aesthetic { name, fields, prose, span: node.span })
}

/// Read a foreign block.
fn parse_foreign_block(node: &SyntaxNode) -> (r: ParseResult<ForeignBlock>)
    ensures
        r matches Ok(b) && foreign_of(b, *node),
{
    let language = match find_child(node, "language") {
        Some(n) => n.text.clone(),
        None => String::new(),
    };
    let content = prose_children(node);
    Ok(ForeignBlock { language, content, span: node.span })
}

/// The first prose child of a node as a title, the others as a body.
fn title_and_body(node: &SyntaxNode) -> (r: (Prose, Vec<Prose>))
    ensures
        first_prose_of(r.0, node.children@),
        prose_seq_of(r.1@, rest_prose(node.children@)),
{
    let ghost cs = node.children@;
    let mut title = no_prose();
    let mut body: Vec<Prose> = Vec::new();
    let mut first = true;
    let mut i: usize = 0;
    assert(cs.take(0) =~= Seq::<SyntaxNode>::empty());
    while i < node.children.len()
        invariant
            i <= cs.len(),
            cs == node.children@,
            first == (nodes_of_kind(cs.take(i as int), "prose"@).len() == 0),
            first_prose_of(title, cs.take(i as int)),
            prose_seq_of(body@, rest_prose(cs.take(i as int))),
        decreases node.children.len() - i,
    {
        let c = &node.children[i];
        proof {
            assert(cs.take(i + 1).drop_last() =~= cs.take(i as int));
            assert(cs.take(i + 1).last() == cs[i as int]);
            assert(*c == cs[i as int]);
        }
        if str_eq(c.kind.as_str(), "prose") {
            let p = parse_prose(c);
            let ghost gp = p;
            let ghost t0 = title;
            let ghost b0 = body@;
            let ghost was_first = first;
            if first {
                title = p;
                first = false;
            } else {
                body.push(p);
            }
            proof {
                if !was_first {
                    assert(body@ == b0.push(gp));
                    assert(body@.drop_last() =~= b0);
                    assert(body@.last() == gp);
                }
                lemma_title_step(cs, i as int, t0, b0, title, body@);
            }
        } else {
            proof {
                lemma_title_skip(cs, i as int, title, body@);
            }
        }
        i += 1;
    }
    assert(cs.take(cs.len() as int) =~= cs);
    (title, body)
}

/// Read a subsection.
fn parse_subsection(node: &SyntaxNode) -> (r: ParseResult<Subsection>)
    ensures
        r matches Ok(s) && subsection_of(s, *node),
{
    let (header, body) = title_and_body(node);
    Ok(Subsection { header, body, span: node.span })
}


// ============================================================================
// Behaviors
// ============================================================================

/// The paragraph of a body clause that begins with `key`, when it has one.
spec fn keyed_paragraph(c: SyntaxNode, key: Seq<char>) -> Option<SyntaxNode> {
    if key.is_prefix_of(c.text@) && has_kind(c.children@, "prose"@) {
        first_of_kind(c.children@, "prose"@)
    } else {
        None
    }
}

/// The EARS clause of a body clause that begins with no keyword, when it has one.
spec fn unkeyed_ears(c: SyntaxNode) -> Option<SyntaxNode> {
    if !keyed_body(c.text@) && has_kind(c.children@, "ears_clause"@) {
        first_of_kind(c.children@, "ears_clause"@)
    } else {
        None
    }
}

/// The node of `n` as a sequence of at most one.
spec fn opt_seq(n: Option<SyntaxNode>) -> Seq<SyntaxNode> {
    match n {
        Some(m) => seq![m],
        None => Seq::empty(),
    }
}

/// `after` is `before` with the paragraph of `n` added, when there is one.
spec fn prose_pushed(after: Seq<Prose>, before: Seq<Prose>, n: Option<SyntaxNode>) -> bool {
    match n {
        Some(m) => after.len() == before.len() + 1 && after.drop_last() == before && prose_of(
            after.last(),
            m,
        ),
        None => after == before,
    }
}

/// `after` is `before` with the EARS clause of `n` added, when there is one.
spec fn ears_pushed(after: Seq<EarsClause>, before: Seq<EarsClause>, n: Option<SyntaxNode>) -> bool {
    match n {
        Some(m) => after.len() == before.len() + 1 && after.drop_last() == before && ears_of(
            after.last(),
            m,
        ),
        None => after == before,
    }
}

/// `after` is the paragraph of `n` when there is one, else `before`.
spec fn prose_set(after: Option<Prose>, before: Option<Prose>, n: Option<SyntaxNode>) -> bool {
    match n {
        Some(m) => after matches Some(x) && prose_of(x, m),
        None => after == before,
    }
}

/// A prefix of a literal agrees with the text it begins.
proof fn lemma_prefix_char(p: Seq<char>, t: Seq<char>, k: int)
    requires
        p.is_prefix_of(t),
        0 <= k < p.len(),
    ensures
        p[k] == t[k],
{
    assert(t.subrange(0, p.len() as int)[k] == t[k]);
}

/// No text begins with two of the body keywords.
proof fn lemma_keys_exclusive(t: Seq<char>)
    ensures
        "given:"@.is_prefix_of(t) ==> !"returns:"@.is_prefix_of(t) && !"requires:"@.is_prefix_of(t)
            && !"ensures:"@.is_prefix_of(t),
        "returns:"@.is_prefix_of(t) ==> !"requires:"@.is_prefix_of(t) && !"ensures:"@.is_prefix_of(
            t,
        ),
        "requires:"@.is_prefix_of(t) ==> !"ensures:"@.is_prefix_of(t),
{
    reveal_strlit("given:");
    reveal_strlit("returns:");
    reveal_strlit("requires:");
    reveal_strlit("ensures:");
    if "given:"@.is_prefix_of(t) {
        lemma_prefix_char("given:"@, t, 0);
        if "returns:"@.is_prefix_of(t) {
            lemma_prefix_char("returns:"@, t, 0);
        }
        if "requires:"@.is_prefix_of(t) {
            lemma_prefix_char("requires:"@, t, 0);
        }
        if "ensures:"@.is_prefix_of(t) {
            lemma_prefix_char("ensures:"@, t, 0);
        }
    }
    if "returns:"@.is_prefix_of(t) {
        lemma_prefix_char("returns:"@, t, 0);
        lemma_prefix_char("returns:"@, t, 2);
        if "requires:"@.is_prefix_of(t) {
            lemma_prefix_char("requires:"@, t, 2);
        }
        if "ensures:"@.is_prefix_of(t) {
            lemma_prefix_char("ensures:"@, t, 0);
        }
    }
    if "requires:"@.is_prefix_of(t) {
        lemma_prefix_char("requires:"@, t, 0);
        if "ensures:"@.is_prefix_of(t) {
            lemma_prefix_char("ensures:"@, t, 0);
        }
    }
}

/// Read the requirement IDs of an implements clause.
fn parse_implements_clause(node: &SyntaxNode) -> (r: Vec<ReqId>)
    ensures
        reqid_seq_of(r@, req_ident_nodes(node.children@)),
{
    let ghost cs = node.children@;
    let mut ids: Vec<ReqId> = Vec::new();
    let mut i: usize = 0;
    while i < node.children.len()
        invariant
            i <= cs.len(),
            cs == node.children@,
            reqid_seq_of(ids@, req_ident_nodes(cs.take(i as int))),
        decreases node.children.len() - i,
    {
        proof {
            assert(cs.take(i + 1).drop_last() =~= cs.take(i as int));
            assert(cs.take(i + 1).last() == cs[i as int]);
        }
        let c = &node.children[i];
        if str_eq(c.kind.as_str(), "identifier") && starts_with(c.text.as_str(), "REQ-") {
            let x = parse_req_id(c);
            let ghost o0 = ids@;
            ids.push(x);
            proof {
                let s0 = req_ident_nodes(cs.take(i as int));
                let s1 = req_ident_nodes(cs.take(i + 1));
                assert(s1 =~= s0.push(*c));
                assert(s1.drop_last() =~= s0);
                assert(ids@.drop_last() =~= o0);
            }
        } else {
            proof {
                assert(req_ident_nodes(cs.take(i + 1)) =~= req_ident_nodes(cs.take(i as int)));
            }
        }
        i += 1;
    }
    assert(cs.take(cs.len() as int) =~= cs);
    ids
}

/// Read a behavior body clause into the lists it adds to: a keyed clause
/// gives its paragraph, an unkeyed one its EARS clause.
fn parse_behavior_body(
    node: &SyntaxNode,
    given: &mut Vec<Prose>,
    ret: &mut Option<Prose>,
    pre: &mut Vec<Prose>,
    post: &mut Vec<Prose>,
    ears_clauses: &mut Vec<EarsClause>,
)
    ensures
        prose_pushed(final(given)@, old(given)@, keyed_paragraph(*node, "given:"@)),
        prose_set(*final(ret), *old(ret), keyed_paragraph(*node, "returns:"@)),
        prose_pushed(final(pre)@, old(pre)@, keyed_paragraph(*node, "requires:"@)),
        prose_pushed(final(post)@, old(post)@, keyed_paragraph(*node, "ensures:"@)),
        ears_pushed(final(ears_clauses)@, old(ears_clauses)@, unkeyed_ears(*node)),
{
    proof {
        lemma_keys_exclusive(node.text@);
    }
    let text = node.text.as_str();
    let prose_node = find_child(node, "prose");
    if starts_with(text, "given:") {
        if let Some(p) = prose_node {
            let x = parse_prose(p);
            let ghost o0 = given@;
            given.push(x);
            assert(given@.drop_last() =~= o0);
        }
    } else if starts_with(text, "returns:") {
        if let Some(p) = prose_node {
            *ret = Some(parse_prose(p));
        }
    } else if starts_with(text, "requires:") {
        if let Some(p) = prose_node {
            let x = parse_prose(p);
            let ghost o0 = pre@;
            pre.push(x);
            assert(pre@.drop_last() =~= o0);
        }
    } else if starts_with(text, "ensures:") {
        if let Some(p) = prose_node {
            let x = parse_prose(p);
            let ghost o0 = post@;
            post.push(x);
            assert(post@.drop_last() =~= o0);
        }
    } else if let Some(e) = find_child(node, "ears_clause") {
        if let Ok(clause) = parse_ears_clause(e) {
            let ghost o0 = ears_clauses@;
            ears_clauses.push(clause);
            assert(ears_clauses@.drop_last() =~= o0);
        }
    }
}

/// One more child extends the body paragraphs of `key` by what it gives.
proof fn lemma_body_step(cs: Seq<SyntaxNode>, i: int, key: Seq<char>)
    requires
        0 <= i < cs.len(),
    ensures
        cs[i].kind@ == "behavior_body"@ ==> body_paragraphs(cs.take(i + 1), key) == body_paragraphs(
            cs.take(i),
            key,
        ) + opt_seq(keyed_paragraph(cs[i], key)),
        cs[i].kind@ != "behavior_body"@ ==> body_paragraphs(cs.take(i + 1), key) == body_paragraphs(
            cs.take(i),
            key,
        ),
{
    let a = cs.take(i);
    let b = cs.take(i + 1);
    assert(b.drop_last() =~= a);
    assert(b.last() == cs[i]);
    if cs[i].kind@ == "behavior_body"@ {
        assert(body_paragraphs(b, key) =~= body_paragraphs(a, key) + opt_seq(
            keyed_paragraph(cs[i], key),
        ));
    } else {
        assert(body_paragraphs(b, key) =~= body_paragraphs(a, key));
    }
}

/// One more child sets the returns paragraph when it gives one.
proof fn lemma_returns_step(cs: Seq<SyntaxNode>, i: int)
    requires
        0 <= i < cs.len(),
    ensures
        returns_paragraph(cs.take(i + 1)) == (if cs[i].kind@ == "behavior_body"@ && keyed_paragraph(
            cs[i],
            "returns:"@,
        ) is Some {
            keyed_paragraph(cs[i], "returns:"@)
        } else {
            returns_paragraph(cs.take(i))
        }),
{
    let a = cs.take(i);
    let b = cs.take(i + 1);
    assert(b.drop_last() =~= a);
    assert(b.last() == cs[i]);
}

/// One more child extends a behavior's EARS clauses by what it gives.
proof fn lemma_ears_step(cs: Seq<SyntaxNode>, i: int)
    requires
        0 <= i < cs.len(),
    ensures
        behavior_ears(cs.take(i + 1)) == behavior_ears(cs.take(i)) + (if cs[i].kind@
            == "ears_clause"@ {
            seq![cs[i]]
        } else if cs[i].kind@ == "behavior_body"@ {
            opt_seq(unkeyed_ears(cs[i]))
        } else {
            Seq::empty()
        }),
{
    let a = cs.take(i);
    let b = cs.take(i + 1);
    assert(b.drop_last() =~= a);
    assert(b.last() == cs[i]);
    if cs[i].kind@ == "ears_clause"@ {
        assert(behavior_ears(b) =~= behavior_ears(a) + seq![cs[i]]);
    } else if cs[i].kind@ == "behavior_body"@ {
        assert(behavior_ears(b) =~= behavior_ears(a) + opt_seq(unkeyed_ears(cs[i])));
    } else {
        assert(behavior_ears(b) =~= behavior_ears(a) + Seq::<SyntaxNode>::empty());
    }
}

/// One more child extends a behavior's implemented requirements by its IDs.
proof fn lemma_implements_step(cs: Seq<SyntaxNode>, i: int)
    requires
        0 <= i < cs.len(),
    ensures
        cs[i].kind@ == "implements_clause"@ ==> behavior_implements(cs.take(i + 1))
            == behavior_implements(cs.take(i)) + req_ident_nodes(cs[i].children@),
        cs[i].kind@ != "implements_clause"@ ==> behavior_implements(cs.take(i + 1))
            == behavior_implements(cs.take(i)),
{
    let a = cs.take(i);
    let b = cs.take(i + 1);
    assert(b.drop_last() =~= a);
    assert(b.last() == cs[i]);
    if cs[i].kind@ != "implements_clause"@ {
        assert(behavior_implements(b) =~= behavior_implements(a));
    }
}

/// One more child extends the children of kind `k` by itself, when it has that kind.
proof fn lemma_nodes_step(cs: Seq<SyntaxNode>, i: int, k: Seq<char>)
    requires
        0 <= i < cs.len(),
    ensures
        cs[i].kind@ == k ==> nodes_of_kind(cs.take(i + 1), k) == nodes_of_kind(cs.take(i), k).push(
            cs[i],
        ),
        cs[i].kind@ != k ==> nodes_of_kind(cs.take(i + 1), k) == nodes_of_kind(cs.take(i), k),
{
    let a = cs.take(i);
    let b = cs.take(i + 1);
    assert(b.drop_last() =~= a);
    assert(b.last() == cs[i]);
    if cs[i].kind@ == k {
        assert(nodes_of_kind(b, k) =~= nodes_of_kind(a, k).push(cs[i]));
    } else {
        assert(nodes_of_kind(b, k) =~= nodes_of_kind(a, k));
    }
}

/// Adding what one node gives to a list of paragraphs keeps it read from its nodes.
proof fn lemma_prose_extend(xs: Seq<Prose>, ns: Seq<SyntaxNode>, after: Seq<Prose>, n: Option<SyntaxNode>)
    requires
        prose_seq_of(xs, ns),
        prose_pushed(after, xs, n),
    ensures
        prose_seq_of(after, ns + opt_seq(n)),
{
    match n {
        Some(m) => {
            let ns2 = ns + seq![m];
            assert(ns2.drop_last() =~= ns);
            assert(ns2.last() == m);
        },
        None => {
            assert(ns + Seq::<SyntaxNode>::empty() =~= ns);
        },
    }
}

/// Adding what one node gives to a list of EARS clauses keeps it read from its nodes.
proof fn lemma_ears_extend(
    xs: Seq<EarsClause>,
    ns: Seq<SyntaxNode>,
    after: Seq<EarsClause>,
    n: Option<SyntaxNode>,
)
    requires
        ears_seq_of(xs, ns),
        ears_pushed(after, xs, n),
    ensures
        ears_seq_of(after, ns + opt_seq(n)),
{
    match n {
        Some(m) => {
            let ns2 = ns + seq![m];
            assert(ns2.drop_last() =~= ns);
            assert(ns2.last() == m);
        },
        None => {
            assert(ns + Seq::<SyntaxNode>::empty() =~= ns);
        },
    }
}

/// Two lists of requirement IDs read from two runs of nodes, one after the other.
proof fn lemma_reqid_concat(xs: Seq<ReqId>, ns: Seq<SyntaxNode>, ys: Seq<ReqId>, ms: Seq<SyntaxNode>)
    requires
        reqid_seq_of(xs, ns),
        reqid_seq_of(ys, ms),
    ensures
        reqid_seq_of(xs + ys, ns + ms),
    decreases ys.len(),
{
    if ys.len() == 0 {
        assert(xs + ys =~= xs);
        assert(ns + ms =~= ns);
    } else {
        lemma_reqid_concat(xs, ns, ys.drop_last(), ms.drop_last());
        assert((xs + ys).drop_last() =~= xs + ys.drop_last());
        assert((ns + ms).drop_last() =~= ns + ms.drop_last());
        assert((xs + ys).last() == ys.last());
        assert((ns + ms).last() == ms.last());
    }
}

/// Read a behavior; it needs an identifier.
#[verifier::rlimit(40)]
fn parse_behavior(node: &SyntaxNode) -> (r: ParseResult<Behavior>)
    ensures
        match r {
            Ok(x) => has_kind(node.children@, "identifier"@) && behavior_of(x, *node),
            Err(e) => !has_kind(node.children@, "identifier"@) && missing_child(e, "identifier"@),
        },
{
    let name = match find_child(node, "identifier") {
        Some(n) => parse_identifier(n),
        None => return Err(ParseError::MissingChild { name: "identifier" }),
    };
    let ghost cs = node.children@;
    let mut implements: Vec<ReqId> = Vec::new();
    let mut given: Vec<Prose> = Vec::new();
    let mut ret: Option<Prose> = None;
    let mut pre: Vec<Prose> = Vec::new();
    let mut post: Vec<Prose> = Vec::new();
    let mut ears_clauses: Vec<EarsClause> = Vec::new();
    let mut prose: Vec<Prose> = Vec::new();
    let mut i: usize = 0;
    assert(cs.take(0) =~= Seq::<SyntaxNode>::empty());
    while i < node.children.len()
        invariant
            i <= cs.len(),
            cs == node.children@,
            reqid_seq_of(implements@, behavior_implements(cs.take(i as int))),
            prose_seq_of(given@, body_paragraphs(cs.take(i as int), "given:"@)),
            match returns_paragraph(cs.take(i as int)) {
                Some(p) => ret matches Some(x) && prose_of(x, p),
                None => ret is None,
            },
            prose_seq_of(pre@, body_paragraphs(cs.take(i as int), "requires:"@)),
            prose_seq_of(post@, body_paragraphs(cs.take(i as int), "ensures:"@)),
            ears_seq_of(ears_clauses@, behavior_ears(cs.take(i as int))),
            prose_seq_of(prose@, nodes_of_kind(cs.take(i as int), "prose"@)),
        decreases node.children.len() - i,
    {
        let c = &node.children[i];
        proof {
            assert(*c == cs[i as int]);
            lemma_kinds_differ();
            lemma_body_step(cs, i as int, "given:"@);
            lemma_body_step(cs, i as int, "requires:"@);
            lemma_body_step(cs, i as int, "ensures:"@);
            lemma_returns_step(cs, i as int);
            lemma_ears_step(cs, i as int);
            lemma_implements_step(cs, i as int);
            lemma_nodes_step(cs, i as int, "prose"@);
        }
        let ghost a = cs.take(i as int);
        let ghost g0 = given@;
        let ghost p0 = pre@;
        let ghost q0 = post@;
        let ghost e0 = ears_clauses@;
        let ghost r0 = ret;
        if str_eq(c.kind.as_str(), "implements_clause") {
            let mut ids = parse_implements_clause(c);
            let ghost i0 = implements@;
            let ghost gids = ids@;
            implements.append(&mut ids);
            proof {
                lemma_reqid_concat(i0, behavior_implements(a), gids, req_ident_nodes(c.children@));
                assert(behavior_ears(cs.take(i + 1)) =~= behavior_ears(a));
            }
        } else if str_eq(c.kind.as_str(), "behavior_body") {
            parse_behavior_body(c, &mut given, &mut ret, &mut pre, &mut post, &mut ears_clauses);
            proof {
                lemma_prose_extend(g0, body_paragraphs(a, "given:"@), given@, keyed_paragraph(*c, "given:"@));
                lemma_prose_extend(p0, body_paragraphs(a, "requires:"@), pre@, keyed_paragraph(*c, "requires:"@));
                lemma_prose_extend(q0, body_paragraphs(a, "ensures:"@), post@, keyed_paragraph(*c, "ensures:"@));
                lemma_ears_extend(e0, behavior_ears(a), ears_clauses@, unkeyed_ears(*c));
            }
        } else if str_eq(c.kind.as_str(), "ears_clause") {
            if let Ok(clause) = parse_ears_clause(c) {
                ears_clauses.push(clause);
                proof {
                    let s0 = behavior_ears(a);
                    assert(s0 + seq![*c] =~= s0.push(*c));
                    assert(s0.push(*c).drop_last() =~= s0);
                    assert(ears_clauses@.drop_last() =~= e0);
                }
            }
        } else if str_eq(c.kind.as_str(), "prose") {
            let x = parse_prose(c);
            let ghost o0 = prose@;
            prose.push(x);
            proof {
                let s0 = nodes_of_kind(a, "prose"@);
                assert(s0.push(*c).drop_last() =~= s0);
                assert(prose@.drop_last() =~= o0);
                assert(behavior_ears(cs.take(i + 1)) =~= behavior_ears(a));
            }
        } else {
            proof {
                assert(behavior_ears(cs.take(i + 1)) =~= behavior_ears(a));
            }
        }
        i += 1;
    }
    assert(cs.take(cs.len() as int) =~= cs);
    Ok(
        Behavior {
            name,
            implements,
            given,
            returns: ret,
            requires: pre,
            ensures: post,
            ears_clauses,
            prose,
            span: node.span,
        },
    )
}

// ============================================================================
// Tasks
// ============================================================================

/// Read a task; it needs an identifier, its ID.
#[verifier::rlimit(40)]
fn parse_task(node: &SyntaxNode) -> (r: ParseResult<Task>)
    ensures
        match r {
            Ok(x) => has_kind(node.children@, "identifier"@) && task_of(x, *node),
            Err(e) => !has_kind(node.children@, "identifier"@) && missing_child(e, "identifier"@),
        },
{
    let id = match find_child(node, "identifier") {
        Some(n) => TaskId { value: n.text.clone(), span: n.span },
        None => return Err(ParseError::MissingChild { name: "identifier" }),
    };
    let ghost cs = node.children@;
    let mut title = no_prose();
    let mut req_refs: Vec<ReqId> = Vec::new();
    let mut fields: Vec<TaskField> = Vec::new();
    let mut prose: Vec<Prose> = Vec::new();
    let mut first = true;
    let mut i: usize = 0;
    assert(cs.take(0) =~= Seq::<SyntaxNode>::empty());
    while i < node.children.len()
        invariant
            i <= cs.len(),
            cs == node.children@,
            first == (nodes_of_kind(cs.take(i as int), "prose"@).len() == 0),
            first_prose_of(title, cs.take(i as int)),
            prose_seq_of(prose@, rest_prose(cs.take(i as int))),
            reqid_seq_of(
                req_refs@,
                match last_of_kind(cs.take(i as int), "task_ref_list"@) {
                    Some(l) => nodes_of_kind(l.children@, "identifier"@),
                    None => Seq::empty(),
                },
            ),
            task_field_seq_of(fields@, nodes_of_kind(cs.take(i as int), "task_field"@)),
        decreases node.children.len() - i,
    {
        let c = &node.children[i];
        proof {
            assert(cs.take(i + 1).drop_last() =~= cs.take(i as int));
            assert(cs.take(i + 1).last() == cs[i as int]);
            assert(*c == cs[i as int]);
            lemma_kinds_differ();
            lemma_nodes_step(cs, i as int, "task_field"@);
        }
        let ghost a = cs.take(i as int);
        if str_eq(c.kind.as_str(), "prose") {
            let p = parse_prose(c);
            let ghost gp = p;
            let ghost t0 = title;
            let ghost b0 = prose@;
            let ghost was_first = first;
            if first {
                title = p;
                first = false;
            } else {
                prose.push(p);
            }
            proof {
                if !was_first {
                    assert(prose@ == b0.push(gp));
                    assert(prose@.drop_last() =~= b0);
                    assert(prose@.last() == gp);
                }
                lemma_title_step(cs, i as int, t0, b0, title, prose@);
                assert(last_of_kind(cs.take(i + 1), "task_ref_list"@) == last_of_kind(a, "task_ref_list"@));
            }
        } else {
            proof {
                lemma_title_skip(cs, i as int, title, prose@);
            }
            if str_eq(c.kind.as_str(), "task_ref_list") {
                req_refs = parse_task_ref_list(c);
                proof {
                    assert(last_of_kind(cs.take(i + 1), "task_ref_list"@) == Some(*c));
                }
            } else {
                proof {
                    assert(last_of_kind(cs.take(i + 1), "task_ref_list"@) == last_of_kind(a, "task_ref_list"@));
                }
                if str_eq(c.kind.as_str(), "task_field") {
                    if let Ok(field) = parse_task_field(c) {
                        let ghost o0 = fields@;
                        fields.push(field);
                        proof {
                            let s0 = nodes_of_kind(a, "task_field"@);
                            assert(s0.push(*c).drop_last() =~= s0);
                            assert(fields@.drop_last() =~= o0);
                        }
                    }
                }
            }
        }
        i += 1;
    }
    assert(cs.take(cs.len() as int) =~= cs);
    Ok(Task { id, title, req_refs, fields, prose, span: node.span })
}

// ============================================================================
// Sections
// ============================================================================

/// The kinds of section elements that need a name differ from those that do not.
proof fn lemma_content_kinds_differ()
    ensures
        "requirement"@ != "foreign_block"@,
        "requirement"@ != "subsection"@,
        "requirement"@ != "prose"@,
        "concept"@ != "foreign_block"@,
        "concept"@ != "subsection"@,
        "concept"@ != "prose"@,
        "behavior"@ != "foreign_block"@,
        "behavior"@ != "subsection"@,
        "behavior"@ != "prose"@,
        "invariant"@ != "foreign_block"@,
        "invariant"@ != "subsection"@,
        "invariant"@ != "prose"@,
        "task"@ != "foreign_block"@,
        "task"@ != "subsection"@,
        "task"@ != "prose"@,
        "aesthetic"@ != "foreign_block"@,
        "aesthetic"@ != "subsection"@,
        "aesthetic"@ != "prose"@,
{
    reveal_strlit("requirement");
    reveal_strlit("concept");
    reveal_strlit("behavior");
    reveal_strlit("invariant");
    reveal_strlit("task");
    reveal_strlit("aesthetic");
    reveal_strlit("foreign_block");
    reveal_strlit("subsection");
    reveal_strlit("prose");
    assert("requirement"@.len() != "foreign_block"@.len());
    assert("requirement"@.len() != "subsection"@.len());
    assert("requirement"@.len() != "prose"@.len());
    assert("concept"@.len() != "foreign_block"@.len());
    assert("concept"@.len() != "subsection"@.len());
    assert("concept"@.len() != "prose"@.len());
    assert("behavior"@.len() != "foreign_block"@.len());
    assert("behavior"@.len() != "subsection"@.len());
    assert("behavior"@.len() != "prose"@.len());
    assert("invariant"@.len() != "foreign_block"@.len());
    assert("invariant"@.len() != "subsection"@.len());
    assert("invariant"@.len() != "prose"@.len());
    assert("task"@.len() != "foreign_block"@.len());
    assert("task"@.len() != "subsection"@.len());
    assert("task"@.len() != "prose"@.len());
    assert("aesthetic"@.len() != "foreign_block"@.len());
    assert("aesthetic"@.len() != "subsection"@.len());
    assert("aesthetic"@.len() != "prose"@.len());
}

/// Read a section element: a known kind whose required child is present.
fn parse_section_content(node: &SyntaxNode) -> (r: Option<SectionContent>)
    ensures
        match r {
            Some(c) => content_ok(*node) && content_of(c, *node),
            None => !content_ok(*node),
        },
{
    proof {
        lemma_content_kinds_differ();
    }
    let k = node.kind.as_str();
    if str_eq(k, "requirement") {
        match parse_requirement(node) {
            Ok(x) => Some(SectionContent::Requirement(x)),
            Err(_) => None,
        }
    } else if str_eq(k, "concept") {
        match parse_concept(node) {
            Ok(x) => Some(SectionContent::Concept(x)),
            Err(_) => None,
        }
    } else if str_eq(k, "behavior") {
        match parse_behavior(node) {
            Ok(x) => Some(SectionContent::Behavior(x)),
            Err(_) => None,
        }
    } else if str_eq(k, "invariant") {
        match parse_invariant(node) {
            Ok(x) => Some(SectionContent::Invariant(x)),
            Err(_) => None,
        }
    } else if str_eq(k, "task") {
        match parse_task(node) {
            Ok(x) => Some(SectionContent::Task(x)),
            Err(_) => None,
        }
    } else if str_eq(k, "aesthetic") {
        match parse_aesthetic(node) {
            Ok(x) => Some(SectionContent::Aesthetic(x)),
            Err(_) => None,
        }
    } else if str_eq(k, "foreign_block") {
        match parse_foreign_block(node) {
            Ok(x) => Some(SectionContent::ForeignBlock(x)),
            Err(_) => None,
        }
    } else if str_eq(k, "subsection") {
        match parse_subsection(node) {
            Ok(x) => Some(SectionContent::Subsection(x)),
            Err(_) => None,
        }
    } else if str_eq(k, "prose") {
        Some(SectionContent::Prose(parse_prose(node)))
    } else {
        None
    }
}

/// Read a section: its header's paragraph and the elements its children give.
fn parse_section(node: &SyntaxNode) -> (r: ParseResult<Section>)
    ensures
        r matches Ok(s) && section_of(s, *node),
{
    let header = match find_child(node, "header") {
        Some(h) => first_prose(h),
        None => no_prose(),
    };
    let ghost cs = node.children@;
    let mut contents: Vec<SectionContent> = Vec::new();
    let mut i: usize = 0;
    while i < node.children.len()
        invariant
            i <= cs.len(),
            cs == node.children@,
            content_seq_of(contents@, content_nodes(cs.take(i as int))),
        decreases node.children.len() - i,
    {
        proof {
            assert(cs.take(i + 1).drop_last() =~= cs.take(i as int));
            assert(cs.take(i + 1).last() == cs[i as int]);
        }
        let c = &node.children[i];
        match parse_section_content(c) {
            Some(x) => {
                let ghost o0 = contents@;
                contents.push(x);
                proof {
                    let s0 = content_nodes(cs.take(i as int));
                    let s1 = content_nodes(cs.take(i + 1));
                    assert(s1 =~= s0.push(*c));
                    assert(s1.drop_last() =~= s0);
                    assert(contents@.drop_last() =~= o0);
                }
            },
            None => {
                proof {
                    assert(content_nodes(cs.take(i + 1)) =~= content_nodes(cs.take(i as int)));
                }
            },
        }
        i += 1;
    }
    assert(cs.take(cs.len() as int) =~= cs);
    Ok(Section { header, contents, span: node.span })
}

// ============================================================================
// Imports and the spec line
// ============================================================================

/// Read an import item; it needs a reference.
fn parse_import_item(node: &SyntaxNode) -> (r: ParseResult<ImportItem>)
    ensures
        match r {
            Ok(x) => has_kind(node.children@, "reference"@) && import_item_of(x, *node),
            Err(e) => !has_kind(node.children@, "reference"@) && missing_child(e, "reference"@),
        },
{
    let reference = match find_child(node, "reference") {
        Some(n) => parse_reference(n),
        None => return Err(ParseError::MissingChild { name: "reference" }),
    };
    let alias = match find_child(node, "identifier") {
        Some(n) => Some(parse_identifier(n)),
        None => None,
    };
    Ok(ImportItem { reference, alias, span: node.span })
}

/// Read the items of an import list that hold a reference.
fn parse_import_list(node: &SyntaxNode) -> (r: Vec<ImportItem>)
    ensures
        import_item_seq_of(r@, import_item_nodes(node.children@)),
{
    let ghost cs = node.children@;
    let mut items: Vec<ImportItem> = Vec::new();
    let mut i: usize = 0;
    while i < node.children.len()
        invariant
            i <= cs.len(),
            cs == node.children@,
            import_item_seq_of(items@, import_item_nodes(cs.take(i as int))),
        decreases node.children.len() - i,
    {
        proof {
            assert(cs.take(i + 1).drop_last() =~= cs.take(i as int));
            assert(cs.take(i + 1).last() == cs[i as int]);
        }
        let c = &node.children[i];
        let mut added = false;
        if str_eq(c.kind.as_str(), "import_item") {
            if let Ok(item) = parse_import_item(c) {
                let ghost o0 = items@;
                items.push(item);
                added = true;
                proof {
                    let s0 = import_item_nodes(cs.take(i as int));
                    let s1 = import_item_nodes(cs.take(i + 1));
                    assert(s1 =~= s0.push(*c));
                    assert(s1.drop_last() =~= s0);
                    assert(items@.drop_last() =~= o0);
                }
            }
        }
        if !added {
            proof {
                assert(import_item_nodes(cs.take(i + 1)) =~= import_item_nodes(cs.take(i as int)));
            }
        }
        i += 1;
    }
    assert(cs.take(cs.len() as int) =~= cs);
    items
}

/// The child an import that cannot be read lacks.
pub open spec fn import_missing(n: SyntaxNode) -> Seq<char> {
    if !has_kind(n.children@, "string"@) {
        "string"@
    } else {
        "identifier"@
    }
}

/// Read an import: a module import (`as`) needs a path and a name; an item
/// import takes its path and list when present.
fn parse_import(node: &SyntaxNode) -> (r: ParseResult<Import>)
    ensures
        match r {
            Ok(x) => import_ok(*node) && import_of(x, *node),
            Err(e) => !import_ok(*node) && missing_child(e, import_missing(*node)),
        },
{
    if has_child(node, "as") {
        let path = match find_child(node, "string") {
            Some(n) => parse_string_lit(n),
            None => return Err(ParseError::MissingChild { name: "string" }),
        };
        let alias = match find_child(node, "identifier") {
            Some(n) => parse_identifier(n),
            None => return Err(ParseError::MissingChild { name: "identifier" }),
        };
        Ok(Import { kind: ImportKind::Module { path, alias }, span: node.span })
    } else {
        let from = match find_child(node, "string") {
            Some(n) => Some(parse_string_lit(n)),
            None => None,
        };
        let items = match find_child(node, "import_list") {
            Some(l) => parse_import_list(l),
            None => Vec::new(),
        };
        Ok(Import { kind: ImportKind::Items { from, items }, span: node.span })
    }
}

/// Read a spec line; it needs a name.
fn parse_spec_decl(node: &SyntaxNode) -> (r: ParseResult<SpecDecl>)
    ensures
        match r {
            Ok(d) => has_kind(node.children@, "identifier"@) && d.span == node.span && ident_of(
                d.name,
                first_of_kind(node.children@, "identifier"@)->0,
            ),
            Err(e) => !has_kind(node.children@, "identifier"@) && missing_child(e, "identifier"@),
        },
{
    let name = match find_child(node, "identifier") {
        Some(n) => parse_identifier(n),
        None => return Err(ParseError::MissingChild { name: "identifier" }),
    };
    Ok(SpecDecl { name, span: node.span })
}

// ============================================================================
// Source files
// ============================================================================

/// Once a prefix holds a node that stops parsing, the whole list stops at the same one.
proof fn lemma_failure_prefix(cs: Seq<SyntaxNode>, j: int)
    requires
        0 <= j <= cs.len(),
        first_failure(cs.take(j)) is Some,
    ensures
        first_failure(cs) == first_failure(cs.take(j)),
    decreases cs.len() - j,
{
    if j < cs.len() {
        assert(cs.take(j + 1).drop_last() =~= cs.take(j));
        lemma_failure_prefix(cs, j + 1);
    } else {
        assert(cs.take(j) =~= cs);
    }
}

/// Read the root node: the last spec line, the imports, the sections and the
/// paragraphs outside sections. A spec line without a name, or an import that
/// cannot be read, stops parsing with the child it lacks.
#[verifier::rlimit(40)]
fn parse_source_file(node: &SyntaxNode) -> (r: ParseResult<SourceFile>)
    ensures
        match r {
            Ok(f) => first_failure(node.children@) is None && file_of(f, *node),
            Err(e) => first_failure(node.children@) matches Some(c) && missing_child(
                e,
                missing_child_of(c),
            ),
        },
{
    let ghost cs = node.children@;
    let mut spec: Option<SpecDecl> = None;
    let mut imports: Vec<Import> = Vec::new();
    let mut sections: Vec<Section> = Vec::new();
    let mut prose: Vec<Prose> = Vec::new();
    let mut i: usize = 0;
    assert(cs.take(0) =~= Seq::<SyntaxNode>::empty());
    while i < node.children.len()
        invariant
            i <= cs.len(),
            cs == node.children@,
            first_failure(cs.take(i as int)) is None,
            match last_of_kind(cs.take(i as int), "spec_def"@) {
                Some(d) => spec matches Some(x) && x.span == d.span && ident_of(
                    x.name,
                    first_of_kind(d.children@, "identifier"@)->0,
                ),
                None => spec is None,
            },
            import_seq_of(imports@, nodes_of_kind(cs.take(i as int), "import_def"@)),
            section_seq_of(sections@, nodes_of_kind(cs.take(i as int), "section"@)),
            prose_seq_of(prose@, nodes_of_kind(cs.take(i as int), "prose"@)),
        decreases node.children.len() - i,
    {
        let c = &node.children[i];
        proof {
            assert(cs.take(i + 1).drop_last() =~= cs.take(i as int));
            assert(cs.take(i + 1).last() == cs[i as int]);
            assert(*c == cs[i as int]);
            lemma_kinds_differ();
            lemma_nodes_step(cs, i as int, "import_def"@);
            lemma_nodes_step(cs, i as int, "section"@);
            lemma_nodes_step(cs, i as int, "prose"@);
        }
        let ghost a = cs.take(i as int);
        if str_eq(c.kind.as_str(), "spec_def") {
            match parse_spec_decl(c) {
                Ok(d) => {
                    spec = Some(d);
                    proof {
                        assert(last_of_kind(cs.take(i + 1), "spec_def"@) == Some(*c));
                    }
                },
                Err(e) => {
                    proof {
                        assert(first_failure(cs.take(i + 1)) == Some(*c));
                        lemma_failure_prefix(cs, i + 1);
                    }
                    return Err(e);
                },
            }
        } else {
            proof {
                assert(last_of_kind(cs.take(i + 1), "spec_def"@) == last_of_kind(a, "spec_def"@));
            }
            if str_eq(c.kind.as_str(), "import_def") {
                match parse_import(c) {
                    Ok(x) => {
                        let ghost o0 = imports@;
                        imports.push(x);
                        proof {
                            let s0 = nodes_of_kind(a, "import_def"@);
                            assert(s0.push(*c).drop_last() =~= s0);
                            assert(imports@.drop_last() =~= o0);
                        }
                    },
                    Err(e) => {
                        proof {
                            assert(first_failure(cs.take(i + 1)) == Some(*c));
                            lemma_failure_prefix(cs, i + 1);
                        }
                        return Err(e);
                    },
                }
            } else if str_eq(c.kind.as_str(), "section") {
                if let Ok(s) = parse_section(c) {
                    let ghost o0 = sections@;
                    sections.push(s);
                    proof {
                        let s0 = nodes_of_kind(a, "section"@);
                        assert(s0.push(*c).drop_last() =~= s0);
                        assert(sections@.drop_last() =~= o0);
                    }
                }
            } else if str_eq(c.kind.as_str(), "prose") {
                let x = parse_prose(c);
                let ghost o0 = prose@;
                prose.push(x);
                proof {
                    let s0 = nodes_of_kind(a, "prose"@);
                    assert(s0.push(*c).drop_last() =~= s0);
                    assert(prose@.drop_last() =~= o0);
                }
            }
        }
        i += 1;
    }
    assert(cs.take(cs.len() as int) =~= cs);
    Ok(SourceFile { spec, imports, sections, prose, span: node.span })
}

/// Parser for converting a concrete syntax tree to the typed AST.
pub struct Parser<'a> {
    source: &'a str,
}

impl<'a> Parser<'a> {
    /// The source text the parser reads.
    pub closed spec fn source_text(&self) -> Seq<char> {
        self.source@
    }

    /// Create a new parser for the given source text.
    pub fn new(source: &'a str) -> (p: Self)
        ensures
            p.source_text() == source@,
    {
        Parser { source }
    }

    /// Parse the root node of a concrete syntax tree into a typed AST: it
    /// fails with the child that the first unreadable spec line or import
    /// lacks, and otherwise gives the file that `file_of` describes.
    pub fn parse(root: &SyntaxNode) -> (r: ParseResult<SourceFile>)
        ensures
            match r {
                Ok(f) => first_failure(root.children@) is None && file_of(f, *root),
                Err(e) => first_failure(root.children@) matches Some(c) && missing_child(
                    e,
                    missing_child_of(c),
                ),
            },
    {
        parse_source_file(root)
    }
}
} // verus!
