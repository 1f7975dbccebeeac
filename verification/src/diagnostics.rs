//! Semantic diagnostics for Topos specifications.
//!
//! Beyond syntax errors: unresolved references, requirements that no task
//! references, duplicate definitions, and anchors in code that refer to
//! missing spec elements.
use vstd::prelude::*;

use crate::anchors::{AnchorReferenceKind, AnchorValidation, InvalidAnchor, OrphanSpecElement};
use crate::ast::{all_contents, contents_of, SectionContent, SourceFile};
use crate::resolve::{references_of, resolve_references, resolved_views, ReferenceKind, ResolvedView};
use crate::span::{dummy_span, Span};
use crate::strmap::{distinct_strings, string_set};
use crate::symbols::{symbols, symbols_of, SymbolKind, TableModel};
use crate::text::{decimal, join, push_decimal, push_joined, push_str, str_eq, views};
use crate::traceability::{graph_of, traceability, GraphModel, TraceNodeKind};

verus! {

// ============================================================================
// Types
// ============================================================================

/// Kind of semantic diagnostic.
#[derive(Debug, Clone, Copy, PartialEq, Eq, Structural)]
pub enum DiagnosticKind {
    /// Reference to undefined symbol.
    UnresolvedReference,
    /// Requirement has no implementing behaviors.
    UncoveredRequirement,
    /// Requirement has no referencing tasks.
    UntaskedRequirement,
    /// Duplicate symbol definition.
    DuplicateDefinition,
    /// Anchor references non-existent spec element.
    InvalidAnchor,
    /// Spec element has no code anchor implementation.
    OrphanSpecElement,
}

/// Diagnostic severity.
#[derive(Debug, Clone, Copy, PartialEq, Eq, Structural)]
pub enum Severity {
    /// Error that should be fixed.
    Error,
    /// Warning that may indicate a problem.
    Warning,
    /// Informational hint.
    Hint,
}

/// A semantic diagnostic message.
#[derive(Debug, Clone, PartialEq, Eq)]
pub struct SemanticDiagnostic {
    /// The diagnostic kind.
    pub kind: DiagnosticKind,
    /// The message.
    pub message: String,
    /// Source location.
    pub span: Span,
    /// Severity level.
    pub severity: Severity,
}

/// What a diagnostic says, its message taken by its view.
pub struct DiagnosticView {
    pub kind: DiagnosticKind,
    pub message: Seq<char>,
    pub span: Span,
    pub severity: Severity,
}

impl View for SemanticDiagnostic {
    type V = DiagnosticView;

    open spec fn view(&self) -> DiagnosticView {
        DiagnosticView {
            kind: self.kind,
            message: self.message@,
            span: self.span,
            severity: self.severity,
        }
    }
}

/// The views of a sequence of diagnostics.
pub open spec fn diagnostic_views(s: Seq<SemanticDiagnostic>) -> Seq<DiagnosticView> {
    s.map_values(|d: SemanticDiagnostic| d@)
}

/// Collection of semantic diagnostics.
#[derive(Debug, Clone, PartialEq, Eq)]
pub struct SemanticDiagnostics {
    pub diagnostics: Vec<SemanticDiagnostic>,
}

impl Default for SemanticDiagnostics {
    fn default() -> (r: Self)
        ensures
            r.diagnostics@.len() == 0,
    {
        SemanticDiagnostics { diagnostics: Vec::new() }
    }
}

/// The diagnostics that a sequence of references points to.
pub open spec fn diagnostic_derefs(s: Seq<&SemanticDiagnostic>) -> Seq<SemanticDiagnostic> {
    s.map_values(|d: &SemanticDiagnostic| *d)
}

/// The diagnostics of `s` with severity `sev`, in order.
pub open spec fn with_severity(s: Seq<SemanticDiagnostic>, sev: Severity) -> Seq<SemanticDiagnostic> {
    s.filter(|d: SemanticDiagnostic| d.severity == sev)
}

impl SemanticDiagnostics {
    /// The diagnostics of severity `sev`, in order.
    fn of_severity(&self, sev: Severity) -> (r: Vec<&SemanticDiagnostic>)
        ensures
            diagnostic_derefs(r@) == with_severity(self.diagnostics@, sev),
    {
        let ghost p = |d: SemanticDiagnostic| d.severity == sev;
        let mut r: Vec<&SemanticDiagnostic> = Vec::new();
        let mut i: usize = 0;
        while i < self.diagnostics.len()
            invariant
                i <= self.diagnostics@.len(),
                p == (|d: SemanticDiagnostic| d.severity == sev),
                diagnostic_derefs(r@) == self.diagnostics@.take(i as int).filter(p),
            decreases self.diagnostics.len() - i,
        {
            proof {
                crate::text::lemma_filter_take_push(self.diagnostics@, p, i as int);
            }
            if self.diagnostics[i].severity == sev {
                let ghost r0 = r@;
                r.push(&self.diagnostics[i]);
                assert(diagnostic_derefs(r@) =~= diagnostic_derefs(r0).push(self.diagnostics@[i as int]));
            }
            i += 1;
        }
        assert(self.diagnostics@.take(i as int) =~= self.diagnostics@);
        r
    }

    /// Get all errors.
    pub fn errors(&self) -> (r: Vec<&SemanticDiagnostic>)
        ensures
            diagnostic_derefs(r@) == with_severity(self.diagnostics@, Severity::Error),
    {
        self.of_severity(Severity::Error)
    }

    /// Get all warnings.
    pub fn warnings(&self) -> (r: Vec<&SemanticDiagnostic>)
        ensures
            diagnostic_derefs(r@) == with_severity(self.diagnostics@, Severity::Warning),
    {
        self.of_severity(Severity::Warning)
    }

    /// Check if there are any errors.
    pub fn has_errors(&self) -> (b: bool)
        ensures
            b == exists|i: int|
                0 <= i < self.diagnostics@.len() && #[trigger] self.diagnostics@[i].severity
                    == Severity::Error,
    {
        let mut i: usize = 0;
        while i < self.diagnostics.len()
            invariant
                i <= self.diagnostics@.len(),
                forall|j: int| 0 <= j < i ==> self.diagnostics@[j].severity != Severity::Error,
            decreases self.diagnostics.len() - i,
        {
            if self.diagnostics[i].severity == Severity::Error {
                return true;
            }
            i += 1;
        }
        false
    }
}

// ============================================================================
// Diagnostics of a file
// ============================================================================

/// The word used for a reference kind in messages.
pub open spec fn reference_kind_word(k: ReferenceKind) -> Seq<char> {
    match k {
        ReferenceKind::Type => "type"@,
        ReferenceKind::Requirement => "requirement"@,
        ReferenceKind::Task => "task"@,
        ReferenceKind::Concept => "concept"@,
    }
}

/// The primitive/builtin type names, which are never reported unresolved.
pub open spec fn primitive_type_name(n: Seq<char>) -> bool {
    ||| n == "String"@
    ||| n == "Int"@
    ||| n == "Integer"@
    ||| n == "Float"@
    ||| n == "Bool"@
    ||| n == "Boolean"@
    ||| n == "Date"@
    ||| n == "DateTime"@
    ||| n == "Time"@
    ||| n == "Duration"@
    ||| n == "UUID"@
    ||| n == "Identifier"@
    ||| n == "Email"@
    ||| n == "URL"@
    ||| n == "Money"@
    ||| n == "Decimal"@
}

/// The error reported for an unresolved reference.
pub open spec fn unresolved_diagnostic(r: ResolvedView) -> DiagnosticView {
    DiagnosticView {
        kind: DiagnosticKind::UnresolvedReference,
        message: "Unresolved "@ + reference_kind_word(r.kind) + ": '"@ + r.name + "'"@,
        span: r.span,
        severity: Severity::Error,
    }
}

/// The errors reported for the unresolved, non-primitive references of `refs`, in order.
pub open spec fn unresolved_diagnostics(refs: Seq<ResolvedView>) -> Seq<DiagnosticView>
    decreases refs.len(),
{
    if refs.len() == 0 {
        Seq::empty()
    } else {
        let prev = unresolved_diagnostics(refs.drop_last());
        let r = refs.last();
        if r.symbol is None && !primitive_type_name(r.name) {
            prev.push(unresolved_diagnostic(r))
        } else {
            prev
        }
    }
}

/// The requirements of `g` that no task references.
pub open spec fn untasked_set(g: GraphModel) -> Set<Seq<char>> {
    Set::new(
        |x: Seq<char>|
            g.nodes.contains_key(x) && g.nodes[x].kind == TraceNodeKind::Requirement
                && !g.req_to_tasks.contains_key(x),
    )
}

/// The warnings reported, in the order of `ids`, for the requirements that the table defines.
pub open spec fn untasked_diagnostics(ids: Seq<Seq<char>>, t: TableModel) -> Seq<DiagnosticView>
    decreases ids.len(),
{
    if ids.len() == 0 {
        Seq::empty()
    } else {
        let prev = untasked_diagnostics(ids.drop_last(), t);
        let x = ids.last();
        if t.requirements.contains_key(x) {
            prev.push(
                DiagnosticView {
                    kind: DiagnosticKind::UntaskedRequirement,
                    message: "Requirement '"@ + x + "' has no implementing tasks"@,
                    span: t.requirements[x].span,
                    severity: Severity::Warning,
                },
            )
        } else {
            prev
        }
    }
}

/// Check if a type name is a primitive/builtin type.
fn is_primitive_type(name: &str) -> (b: bool)
    ensures
        b == primitive_type_name(name@),
{
    str_eq(name, "String") || str_eq(name, "Int") || str_eq(name, "Integer") || str_eq(name, "Float")
        || str_eq(name, "Bool") || str_eq(name, "Boolean") || str_eq(name, "Date") || str_eq(
        name,
        "DateTime",
    ) || str_eq(name, "Time") || str_eq(name, "Duration") || str_eq(name, "UUID") || str_eq(
        name,
        "Identifier",
    ) || str_eq(name, "Email") || str_eq(name, "URL") || str_eq(name, "Money") || str_eq(
        name,
        "Decimal",
    )
}

/// The word for a reference kind.
fn kind_word(k: ReferenceKind) -> (r: &'static str)
    ensures
        r@ == reference_kind_word(k),
{
    match k {
        ReferenceKind::Type => "type",
        ReferenceKind::Requirement => "requirement",
        ReferenceKind::Task => "task",
        ReferenceKind::Concept => "concept",
    }
}

/// Check for unresolved references.
fn check_unresolved_references(ast: &SourceFile, diags: &mut SemanticDiagnostics)
    ensures
        diagnostic_views(final(diags).diagnostics@) == diagnostic_views(old(diags).diagnostics@)
            + unresolved_diagnostics(references_of(*ast)),
{
    let resolved = resolve_references(ast);
    let ghost refs = resolved_views(resolved.references@);
    let ghost start = diagnostic_views(diags.diagnostics@);
    let mut i: usize = 0;
    while i < resolved.references.len()
        invariant
            i <= refs.len(),
            refs == resolved_views(resolved.references@),
            diagnostic_views(diags.diagnostics@) == start + unresolved_diagnostics(
                refs.take(i as int),
            ),
        decreases resolved.references.len() - i,
    {
        proof {
            assert(refs.take(i + 1).drop_last() =~= refs.take(i as int));
            assert(refs.take(i + 1).last() == resolved.references@[i as int]@);
        }
        let r = &resolved.references[i];
        if r.symbol.is_none() && !is_primitive_type(r.reference.name.as_str()) {
            let mut message = String::new();
            push_str(&mut message, "Unresolved ");
            push_str(&mut message, kind_word(r.reference.kind));
            push_str(&mut message, ": '");
            push_str(&mut message, r.reference.name.as_str());
            push_str(&mut message, "'");
            let ghost d0 = diags.diagnostics@;
            diags.diagnostics.push(
                SemanticDiagnostic {
                    kind: DiagnosticKind::UnresolvedReference,
                    message,
                    span: r.reference.span,
                    severity: Severity::Error,
                },
            );
            assert(diagnostic_views(diags.diagnostics@) =~= diagnostic_views(d0).push(
                unresolved_diagnostic(refs[i as int]),
            ));
        }
        i += 1;
    }
    assert(refs.take(refs.len() as int) =~= refs);
}

/// Check traceability coverage: warn about requirements without tasks.
fn check_traceability(ast: &SourceFile, diags: &mut SemanticDiagnostics) -> (ids: Ghost<Seq<Seq<char>>>)
    ensures
        ids@.no_duplicates(),
        ids@.to_set() == untasked_set(graph_of(*ast)),
        diagnostic_views(final(diags).diagnostics@) == diagnostic_views(old(diags).diagnostics@)
            + untasked_diagnostics(ids@, symbols_of(*ast)),
{
    let graph = traceability(ast);
    let symbol_table = symbols(ast);
    let untasked = graph.untasked_requirements();
    let ghost ids = views(untasked@);
    let ghost t = symbols_of(*ast);
    let ghost start = diagnostic_views(diags.diagnostics@);
    let mut i: usize = 0;
    while i < untasked.len()
        invariant
            i <= untasked@.len(),
            ids == views(untasked@),
            t == symbol_table@,
            diagnostic_views(diags.diagnostics@) == start + untasked_diagnostics(
                ids.take(i as int),
                t,
            ),
        decreases untasked.len() - i,
    {
        proof {
            assert(ids.take(i + 1).drop_last() =~= ids.take(i as int));
            assert(ids.take(i + 1).last() == untasked@[i as int]@);
        }
        let req_id = untasked[i].as_str();
        match symbol_table.get_requirement(req_id) {
            Some(symbol) => {
                let mut message = String::new();
                push_str(&mut message, "Requirement '");
                push_str(&mut message, req_id);
                push_str(&mut message, "' has no implementing tasks");
                let ghost d0 = diags.diagnostics@;
                diags.diagnostics.push(
                    SemanticDiagnostic {
                        kind: DiagnosticKind::UntaskedRequirement,
                        message,
                        span: symbol.span,
                        severity: Severity::Warning,
                    },
                );
                assert(diagnostic_views(diags.diagnostics@) =~= diagnostic_views(d0).push(
                    untasked_diagnostics(ids.take(i + 1), t).last(),
                ));
            },
            None => {},
        }
        i += 1;
    }
    assert(ids.take(ids.len() as int) =~= ids);
    proof {
        assert(ids.no_duplicates()) by {
            assert forall|a: int, b: int| 0 <= a < ids.len() && 0 <= b < ids.len() && a != b implies ids[a] != ids[b] by {
                assert(distinct_strings(untasked@));
            }
        }
        assert forall|x: Seq<char>| #![auto] ids.to_set().contains(x) == untasked_set(graph@).contains(x) by {
            if ids.to_set().contains(x) {
                let j = choose|j: int| 0 <= j < ids.len() && ids[j] == x;
                assert(string_set(untasked@).contains(x));
            }
            if untasked_set(graph@).contains(x) {
                assert(string_set(untasked@).contains(x));
                let j = choose|j: int| 0 <= j < untasked@.len() && untasked@[j]@ == x;
                assert(ids[j] == x);
            }
        }
        assert(ids.to_set() =~= untasked_set(graph@));
    }
    Ghost(ids)
}


// ============================================================================
// Duplicate definitions
// ============================================================================

/// The definition a section content makes, if it defines a requirement,
/// task, concept or behavior: its kind, its name and its span.
pub open spec fn definition_of(c: SectionContent) -> Seq<(SymbolKind, Seq<char>, Span)> {
    match c {
        SectionContent::Requirement(r) => seq![(SymbolKind::Requirement, r.id.value@, r.span)],
        SectionContent::Task(t) => seq![(SymbolKind::Task, t.id.value@, t.span)],
        SectionContent::Concept(k) => seq![(SymbolKind::Concept, k.name.value@, k.span)],
        SectionContent::Behavior(b) => seq![(SymbolKind::Behavior, b.name.value@, b.span)],
        _ => Seq::empty(),
    }
}

/// The definitions of a list of contents, in order.
pub open spec fn definitions_of(cs: Seq<SectionContent>) -> Seq<(SymbolKind, Seq<char>, Span)>
    decreases cs.len(),
{
    if cs.len() == 0 {
        Seq::empty()
    } else {
        definitions_of(cs.drop_last()) + definition_of(cs.last())
    }
}

/// How many definitions of `defs` have kind `k` and name `n`.
pub open spec fn definition_count(defs: Seq<(SymbolKind, Seq<char>, Span)>, k: SymbolKind, n: Seq<char>) -> nat
    decreases defs.len(),
{
    if defs.len() == 0 {
        0
    } else {
        definition_count(defs.drop_last(), k, n) + if defs.last().0 == k && defs.last().1 == n {
            1nat
        } else {
            0nat
        }
    }
}

/// The word for a kind of definition.
pub open spec fn definition_word(k: SymbolKind) -> Seq<char> {
    match k {
        SymbolKind::Requirement => "requirement"@,
        SymbolKind::Task => "task"@,
        SymbolKind::Concept => "concept"@,
        SymbolKind::Behavior => "behavior"@,
        SymbolKind::Invariant => "invariant"@,
        SymbolKind::Field => "field"@,
    }
}

/// The error for a name defined again: at the second definition.
pub open spec fn duplicate_diagnostic(d: (SymbolKind, Seq<char>, Span)) -> DiagnosticView {
    DiagnosticView {
        kind: DiagnosticKind::DuplicateDefinition,
        message: "Duplicate "@ + definition_word(d.0) + " definition: '"@ + d.1 + "'"@,
        span: d.2,
        severity: Severity::Error,
    }
}

/// One error for each requirement, task, concept or behavior name (of one
/// kind) defined more than once, at its second definition, in order.
pub open spec fn duplicate_diagnostics(defs: Seq<(SymbolKind, Seq<char>, Span)>) -> Seq<DiagnosticView>
    decreases defs.len(),
{
    if defs.len() == 0 {
        Seq::empty()
    } else {
        let prev = duplicate_diagnostics(defs.drop_last());
        let d = defs.last();
        if definition_count(defs.drop_last(), d.0, d.1) == 1 {
            prev.push(duplicate_diagnostic(d))
        } else {
            prev
        }
    }
}

/// A definition: kind, name and span.
struct Definition {
    kind: SymbolKind,
    name: String,
    span: Span,
}

/// The views of a list of definitions.
spec fn definition_views(s: Seq<Definition>) -> Seq<(SymbolKind, Seq<char>, Span)> {
    s.map_values(|d: Definition| (d.kind, d.name@, d.span))
}

/// The definitions a file makes, in order.
fn definitions(ast: &SourceFile) -> (r: Vec<Definition>)
    ensures
        definition_views(r@) == definitions_of(all_contents(*ast)),
{
    let cs = contents_of(ast);
    let ghost all = cs@.map_values(|c: &SectionContent| *c);
    let mut r: Vec<Definition> = Vec::new();
    let mut i: usize = 0;
    while i < cs.len()
        invariant
            i <= cs@.len(),
            all == cs@.map_values(|c: &SectionContent| *c),
            definition_views(r@) == definitions_of(all.take(i as int)),
        decreases cs.len() - i,
    {
        proof {
            assert(all.take(i + 1).drop_last() =~= all.take(i as int));
            assert(all.take(i + 1).last() == *cs@[i as int]);
        }
        let ghost r0 = r@;
        match cs[i] {
            SectionContent::Requirement(x) => {
                r.push(Definition { kind: SymbolKind::Requirement, name: x.id.value.clone(), span: x.span });
            },
            SectionContent::Task(x) => {
                r.push(Definition { kind: SymbolKind::Task, name: x.id.value.clone(), span: x.span });
            },
            SectionContent::Concept(x) => {
                r.push(Definition { kind: SymbolKind::Concept, name: x.name.value.clone(), span: x.span });
            },
            SectionContent::Behavior(x) => {
                r.push(Definition { kind: SymbolKind::Behavior, name: x.name.value.clone(), span: x.span });
            },
            _ => {},
        }
        assert(definition_views(r@) =~= definition_views(r0) + definition_of(*cs@[i as int]));
        i += 1;
    }
    assert(all.take(all.len() as int) =~= all);
    r
}

/// How many of the first `i` definitions have the kind and name of `d`.
fn count_before(defs: &Vec<Definition>, i: usize, k: SymbolKind, n: &str) -> (c: usize)
    requires
        i <= defs@.len(),
    ensures
        c == definition_count(definition_views(defs@).take(i as int), k, n@),
{
    let ghost dv = definition_views(defs@);
    let mut c: usize = 0;
    let mut j: usize = 0;
    while j < i
        invariant
            j <= i,
            i <= defs@.len(),
            dv == definition_views(defs@),
            c == definition_count(dv.take(j as int), k, n@),
            c <= j,
        decreases i - j,
    {
        proof {
            assert(dv.take(j + 1).drop_last() =~= dv.take(j as int));
            assert(dv.take(j + 1).last() == dv[j as int]);
        }
        if defs[j].kind == k && str_eq(defs[j].name.as_str(), n) {
            c += 1;
        }
        j += 1;
    }
    c
}

/// The word for a kind of definition.
fn definition_kind_word(k: SymbolKind) -> (r: &'static str)
    ensures
        r@ == definition_word(k),
{
    match k {
        SymbolKind::Requirement => "requirement",
        SymbolKind::Task => "task",
        SymbolKind::Concept => "concept",
        SymbolKind::Behavior => "behavior",
        SymbolKind::Invariant => "invariant",
        SymbolKind::Field => "field",
    }
}

/// Report each name defined more than once.
fn check_duplicates(ast: &SourceFile, diags: &mut SemanticDiagnostics)
    ensures
        diagnostic_views(final(diags).diagnostics@) == diagnostic_views(old(diags).diagnostics@)
            + duplicate_diagnostics(definitions_of(all_contents(*ast))),
{
    let defs = definitions(ast);
    let ghost dv = definition_views(defs@);
    let ghost start = diagnostic_views(diags.diagnostics@);
    let mut i: usize = 0;
    while i < defs.len()
        invariant
            i <= defs@.len(),
            dv == definition_views(defs@),
            diagnostic_views(diags.diagnostics@) == start + duplicate_diagnostics(dv.take(i as int)),
        decreases defs.len() - i,
    {
        proof {
            assert(dv.take(i + 1).drop_last() =~= dv.take(i as int));
            assert(dv.take(i + 1).last() == dv[i as int]);
        }
        let d = &defs[i];
        if count_before(&defs, i, d.kind, d.name.as_str()) == 1 {
            let mut message = String::new();
            push_str(&mut message, "Duplicate ");
            push_str(&mut message, definition_kind_word(d.kind));
            push_str(&mut message, " definition: '");
            push_str(&mut message, d.name.as_str());
            push_str(&mut message, "'");
            let ghost d0 = diags.diagnostics@;
            diags.diagnostics.push(
                SemanticDiagnostic {
                    kind: DiagnosticKind::DuplicateDefinition,
                    message,
                    span: d.span,
                    severity: Severity::Error,
                },
            );
            assert(diagnostic_views(diags.diagnostics@) =~= diagnostic_views(d0).push(
                duplicate_diagnostic(dv[i as int]),
            ));
        }
        i += 1;
    }
    assert(dv.take(dv.len() as int) =~= dv);
}

/// Compute all semantic diagnostics for a file: an error for each unresolved
/// non-primitive reference, in order; a warning for each requirement that no
/// task references (each once, in some order); then an error for each
/// requirement, task, concept or behavior name defined more than once.
pub fn diagnostics(ast: &SourceFile) -> (d: SemanticDiagnostics)
    ensures
        exists|ids: Seq<Seq<char>>|
            #![trigger untasked_diagnostics(ids, symbols_of(*ast))]
            ids.no_duplicates() && ids.to_set() == untasked_set(graph_of(*ast)) && diagnostic_views(
                d.diagnostics@,
            ) == unresolved_diagnostics(references_of(*ast)) + untasked_diagnostics(
                ids,
                symbols_of(*ast),
            ) + duplicate_diagnostics(definitions_of(all_contents(*ast))),
{
    let mut diags = SemanticDiagnostics::default();
    assert(diagnostic_views(diags.diagnostics@) =~= Seq::<DiagnosticView>::empty());
    check_unresolved_references(ast, &mut diags);
    let ids = check_traceability(ast, &mut diags);
    check_duplicates(ast, &mut diags);
    assert(diagnostic_views(diags.diagnostics@) =~= unresolved_diagnostics(references_of(*ast))
        + untasked_diagnostics(ids@, symbols_of(*ast)) + duplicate_diagnostics(
        definitions_of(all_contents(*ast)),
    ));
    diags
}


// ============================================================================
// Anchor diagnostics
// ============================================================================

/// Anchor diagnostic with source location.
#[derive(Debug, Clone, PartialEq, Eq)]
pub struct AnchorDiagnostic {
    /// The diagnostic kind.
    pub kind: DiagnosticKind,
    /// The message.
    pub message: String,
    /// Source file path.
    pub file_path: String,
    /// Line number (0-indexed).
    pub line: usize,
    /// Severity level.
    pub severity: Severity,
}

/// What an anchor diagnostic says, its strings taken by their views.
pub struct AnchorDiagnosticView {
    pub kind: DiagnosticKind,
    pub message: Seq<char>,
    pub file_path: Seq<char>,
    pub line: usize,
    pub severity: Severity,
}

impl View for AnchorDiagnostic {
    type V = AnchorDiagnosticView;

    open spec fn view(&self) -> AnchorDiagnosticView {
        AnchorDiagnosticView {
            kind: self.kind,
            message: self.message@,
            file_path: self.file_path@,
            line: self.line,
            severity: self.severity,
        }
    }
}

/// The lower-case word for an anchor reference kind.
pub open spec fn anchor_kind_word(k: AnchorReferenceKind) -> Seq<char> {
    match k {
        AnchorReferenceKind::Requirement => "requirement"@,
        AnchorReferenceKind::Concept => "concept"@,
        AnchorReferenceKind::Behavior => "behavior"@,
    }
}

/// The capitalised word for an anchor reference kind.
pub open spec fn anchor_kind_title(k: AnchorReferenceKind) -> Seq<char> {
    match k {
        AnchorReferenceKind::Requirement => "Requirement"@,
        AnchorReferenceKind::Concept => "Concept"@,
        AnchorReferenceKind::Behavior => "Behavior"@,
    }
}

/// The "did you mean" tail of a message, empty when there are no suggestions.
pub open spec fn suggestion_text(s: Seq<Seq<char>>) -> Seq<char> {
    if s.len() > 0 {
        ". Did you mean: "@ + join(s, ", "@) + "?"@
    } else {
        Seq::empty()
    }
}

/// The message for an invalid anchor, without its location.
pub open spec fn invalid_anchor_text(i: InvalidAnchor) -> Seq<char> {
    "Anchor references undefined "@ + anchor_kind_word(i.reference_kind) + " '"@
        + i.unresolved_reference@ + "'"@
}

/// The diagnostic for an invalid anchor, with its file and 1-based line in the message.
pub open spec fn invalid_anchor_diagnostic(i: InvalidAnchor) -> DiagnosticView {
    DiagnosticView {
        kind: DiagnosticKind::InvalidAnchor,
        message: invalid_anchor_text(i) + " at "@ + i.anchor.file_path@ + ":"@ + decimal(
            (i.anchor.line + 1) as nat,
        ) + suggestion_text(views(i.suggestions@)),
        span: dummy_span(),
        severity: Severity::Error,
    }
}

/// The message for a spec element without an anchor.
pub open spec fn orphan_text(o: OrphanSpecElement) -> Seq<char> {
    anchor_kind_title(o.kind) + " '"@ + o.name@ + "' has no @topos anchor in code"@
}

/// The diagnostic for a spec element without an anchor.
pub open spec fn orphan_diagnostic(o: OrphanSpecElement) -> DiagnosticView {
    DiagnosticView {
        kind: DiagnosticKind::OrphanSpecElement,
        message: orphan_text(o),
        span: dummy_span(),
        severity: Severity::Warning,
    }
}

/// The detailed diagnostic for an invalid anchor.
pub open spec fn invalid_anchor_detail(i: InvalidAnchor) -> AnchorDiagnosticView {
    AnchorDiagnosticView {
        kind: DiagnosticKind::InvalidAnchor,
        message: invalid_anchor_text(i) + suggestion_text(views(i.suggestions@)),
        file_path: i.anchor.file_path@,
        line: i.anchor.line,
        severity: Severity::Error,
    }
}

/// The detailed diagnostic for a spec element without an anchor.
pub open spec fn orphan_detail(o: OrphanSpecElement) -> AnchorDiagnosticView {
    AnchorDiagnosticView {
        kind: DiagnosticKind::OrphanSpecElement,
        message: orphan_text(o),
        file_path: Seq::empty(),
        line: 0,
        severity: Severity::Warning,
    }
}

/// Appends the message text of an invalid anchor, without its location.
fn push_invalid_anchor_text(s: &mut String, invalid: &InvalidAnchor)
    ensures
        final(s)@ == old(s)@ + invalid_anchor_text(*invalid),
{
    push_str(s, "Anchor references undefined ");
    let word = match invalid.reference_kind {
        AnchorReferenceKind::Requirement => "requirement",
        AnchorReferenceKind::Concept => "concept",
        AnchorReferenceKind::Behavior => "behavior",
    };
    push_str(s, word);
    push_str(s, " '");
    push_str(s, invalid.unresolved_reference.as_str());
    push_str(s, "'");
    assert(s@ =~= old(s)@ + invalid_anchor_text(*invalid));
}

/// Appends the "did you mean" tail.
fn push_suggestions(s: &mut String, suggestions: &Vec<String>)
    ensures
        final(s)@ == old(s)@ + suggestion_text(views(suggestions@)),
{
    if suggestions.len() > 0 {
        push_str(s, ". Did you mean: ");
        push_joined(s, suggestions, ", ");
        push_str(s, "?");
    }
    assert(s@ =~= old(s)@ + suggestion_text(views(suggestions@)));
}

/// The message text for a spec element without an anchor.
fn orphan_message(orphan: &OrphanSpecElement) -> (m: String)
    ensures
        m@ == orphan_text(*orphan),
{
    let mut m = String::new();
    let word = match orphan.kind {
        AnchorReferenceKind::Requirement => "Requirement",
        AnchorReferenceKind::Concept => "Concept",
        AnchorReferenceKind::Behavior => "Behavior",
    };
    push_str(&mut m, word);
    push_str(&mut m, " '");
    push_str(&mut m, orphan.name.as_str());
    push_str(&mut m, "' has no @topos anchor in code");
    assert(m@ =~= orphan_text(*orphan));
    m
}

/// Generate diagnostics from anchor validation results: an error for each
/// invalid anchor (its file and 1-based line in the message), then a warning
/// for each orphan spec element. Anchors are in Rust files, so the span is the
/// dummy one.
pub fn anchor_diagnostics(validation: &AnchorValidation) -> (d: SemanticDiagnostics)
    requires
        forall|k: int|
            0 <= k < validation.invalid@.len() ==> #[trigger] validation.invalid@[k].anchor.line
                < usize::MAX,
    ensures
        diagnostic_views(d.diagnostics@) == validation.invalid@.map_values(
            |i: InvalidAnchor| invalid_anchor_diagnostic(i),
        ) + validation.orphan_spec_elements@.map_values(
            |o: OrphanSpecElement| orphan_diagnostic(o),
        ),
{
    let mut diags = SemanticDiagnostics::default();
    let ghost inv = validation.invalid@.map_values(|i: InvalidAnchor| invalid_anchor_diagnostic(i));
    let ghost orph = validation.orphan_spec_elements@.map_values(
        |o: OrphanSpecElement| orphan_diagnostic(o),
    );
    let mut k: usize = 0;
    while k < validation.invalid.len()
        invariant
            k <= validation.invalid@.len(),
            forall|j: int|
                0 <= j < validation.invalid@.len() ==> #[trigger] validation.invalid@[j].anchor.line
                    < usize::MAX,
            inv == validation.invalid@.map_values(|i: InvalidAnchor| invalid_anchor_diagnostic(i)),
            diagnostic_views(diags.diagnostics@) == inv.take(k as int),
        decreases validation.invalid.len() - k,
    {
        let invalid = &validation.invalid[k];
        let mut message = String::new();
        push_invalid_anchor_text(&mut message, invalid);
        push_str(&mut message, " at ");
        push_str(&mut message, invalid.anchor.file_path.as_str());
        push_str(&mut message, ":");
        push_decimal(&mut message, invalid.anchor.line as u64 + 1);
        push_suggestions(&mut message, &invalid.suggestions);
        assert(message@ == invalid_anchor_diagnostic(validation.invalid@[k as int]).message);
        let ghost d0 = diags.diagnostics@;
        let d = SemanticDiagnostic {
            kind: DiagnosticKind::InvalidAnchor,
            message,
            span: Span::dummy(),
            severity: Severity::Error,
        };
        assert(d@ == inv[k as int]);
        diags.diagnostics.push(d);
        assert(diagnostic_views(diags.diagnostics@) =~= diagnostic_views(d0).push(d@));
        assert(inv.take(k + 1) =~= inv.take(k as int).push(inv[k as int]));
        k += 1;
    }
    assert(inv.take(inv.len() as int) =~= inv);
    let mut k: usize = 0;
    while k < validation.orphan_spec_elements.len()
        invariant
            k <= validation.orphan_spec_elements@.len(),
            orph == validation.orphan_spec_elements@.map_values(
                |o: OrphanSpecElement| orphan_diagnostic(o),
            ),
            diagnostic_views(diags.diagnostics@) == inv + orph.take(k as int),
        decreases validation.orphan_spec_elements.len() - k,
    {
        let message = orphan_message(&validation.orphan_spec_elements[k]);
        let ghost d0 = diags.diagnostics@;
        let d = SemanticDiagnostic {
            kind: DiagnosticKind::OrphanSpecElement,
            message,
            span: Span::dummy(),
            severity: Severity::Warning,
        };
        assert(d@ == orph[k as int]);
        diags.diagnostics.push(d);
        assert(diagnostic_views(diags.diagnostics@) =~= diagnostic_views(d0).push(d@));
        assert(orph.take(k + 1) =~= orph.take(k as int).push(orph[k as int]));
        k += 1;
    }
    assert(orph.take(orph.len() as int) =~= orph);
    diags
}

/// The views of a sequence of anchor diagnostics.
pub open spec fn anchor_diagnostic_views(s: Seq<AnchorDiagnostic>) -> Seq<AnchorDiagnosticView> {
    s.map_values(|d: AnchorDiagnostic| d@)
}

/// Generate detailed anchor diagnostics with file locations: an error for each
/// invalid anchor at its file and line, then a warning with no location for
/// each orphan spec element.
pub fn detailed_anchor_diagnostics(validation: &AnchorValidation) -> (d: Vec<AnchorDiagnostic>)
    ensures
        anchor_diagnostic_views(d@) == validation.invalid@.map_values(
            |i: InvalidAnchor| invalid_anchor_detail(i),
        ) + validation.orphan_spec_elements@.map_values(|o: OrphanSpecElement| orphan_detail(o)),
{
    let mut diags: Vec<AnchorDiagnostic> = Vec::new();
    let ghost inv = validation.invalid@.map_values(|i: InvalidAnchor| invalid_anchor_detail(i));
    let ghost orph = validation.orphan_spec_elements@.map_values(
        |o: OrphanSpecElement| orphan_detail(o),
    );
    let mut k: usize = 0;
    while k < validation.invalid.len()
        invariant
            k <= validation.invalid@.len(),
            inv == validation.invalid@.map_values(|i: InvalidAnchor| invalid_anchor_detail(i)),
            anchor_diagnostic_views(diags@) == inv.take(k as int),
        decreases validation.invalid.len() - k,
    {
        let invalid = &validation.invalid[k];
        let mut message = String::new();
        push_invalid_anchor_text(&mut message, invalid);
        push_suggestions(&mut message, &invalid.suggestions);
        let ghost d0 = diags@;
        let d = AnchorDiagnostic {
            kind: DiagnosticKind::InvalidAnchor,
            message,
            file_path: invalid.anchor.file_path.clone(),
            line: invalid.anchor.line,
            severity: Severity::Error,
        };
        assert(d@ == inv[k as int]);
        diags.push(d);
        assert(anchor_diagnostic_views(diags@) =~= anchor_diagnostic_views(d0).push(d@));
        assert(inv.take(k + 1) =~= inv.take(k as int).push(inv[k as int]));
        k += 1;
    }
    assert(inv.take(inv.len() as int) =~= inv);
    let mut k: usize = 0;
    while k < validation.orphan_spec_elements.len()
        invariant
            k <= validation.orphan_spec_elements@.len(),
            orph == validation.orphan_spec_elements@.map_values(
                |o: OrphanSpecElement| orphan_detail(o),
            ),
            anchor_diagnostic_views(diags@) == inv + orph.take(k as int),
        decreases validation.orphan_spec_elements.len() - k,
    {
        let message = orphan_message(&validation.orphan_spec_elements[k]);
        let ghost d0 = diags@;
        let d = AnchorDiagnostic {
            kind: DiagnosticKind::OrphanSpecElement,
            message,
            file_path: String::new(),
            line: 0,
            severity: Severity::Warning,
        };
        assert(d@.file_path =~= orph[k as int].file_path);
        assert(d@ == orph[k as int]);
        diags.push(d);
        assert(anchor_diagnostic_views(diags@) =~= anchor_diagnostic_views(d0).push(d@));
        assert(orph.take(k + 1) =~= orph.take(k as int).push(orph[k as int]));
        k += 1;
    }
    assert(orph.take(orph.len() as int) =~= orph);
    diags
}

/// The detailed anchor diagnostics match the anchor diagnostics one for one:
/// same number, same kinds and severities in the same order; an invalid
/// anchor's detailed entry carries its file and its 0-based line apart, where
/// the plain message ends its text with " at file:line" (1-based) before the
/// suggestions; an orphan's entries have the same message, no file and line 0.
pub proof fn detailed_diagnostics_match_anchor_diagnostics(v: AnchorValidation)
    ensures
        ({
            let plain = v.invalid@.map_values(|i: InvalidAnchor| invalid_anchor_diagnostic(i))
                + v.orphan_spec_elements@.map_values(|o: OrphanSpecElement| orphan_diagnostic(o));
            let detailed = v.invalid@.map_values(|i: InvalidAnchor| invalid_anchor_detail(i))
                + v.orphan_spec_elements@.map_values(|o: OrphanSpecElement| orphan_detail(o));
            &&& detailed.len() == plain.len()
            &&& forall|k: int|
                0 <= k < plain.len() ==> #[trigger] detailed[k].kind == plain[k].kind && detailed[k].severity
                    == plain[k].severity
            &&& forall|k: int|
                0 <= k < v.invalid@.len() ==> {
                    let i = #[trigger] v.invalid@[k];
                    &&& detailed[k].file_path == i.anchor.file_path@
                    &&& detailed[k].line == i.anchor.line
                    &&& detailed[k].message == invalid_anchor_text(i) + suggestion_text(views(i.suggestions@))
                    &&& plain[k].message == invalid_anchor_text(i) + " at "@ + i.anchor.file_path@ + ":"@
                        + decimal((i.anchor.line + 1) as nat) + suggestion_text(views(i.suggestions@))
                }
            &&& forall|k: int|
                v.invalid@.len() <= k < plain.len() ==> #[trigger] detailed[k].message == plain[k].message
                    && detailed[k].file_path == Seq::<char>::empty() && detailed[k].line == 0
        }),
{
    let n = v.invalid@.len();
    let pi = v.invalid@.map_values(|i: InvalidAnchor| invalid_anchor_diagnostic(i));
    let po = v.orphan_spec_elements@.map_values(|o: OrphanSpecElement| orphan_diagnostic(o));
    let di = v.invalid@.map_values(|i: InvalidAnchor| invalid_anchor_detail(i));
    let dopt = v.orphan_spec_elements@.map_values(|o: OrphanSpecElement| orphan_detail(o));
    let plain = pi + po;
    let detailed = di + dopt;
    assert forall|k: int| 0 <= k < plain.len() implies #[trigger] detailed[k].kind == plain[k].kind
        && detailed[k].severity == plain[k].severity by {
        if k < n {
            assert(plain[k] == pi[k] && detailed[k] == di[k]);
        } else {
            assert(plain[k] == po[k - n] && detailed[k] == dopt[k - n]);
        }
    }
    assert forall|k: int| 0 <= k < n implies {
        let i = #[trigger] v.invalid@[k];
        &&& detailed[k].file_path == i.anchor.file_path@
        &&& detailed[k].line == i.anchor.line
        &&& detailed[k].message == invalid_anchor_text(i) + suggestion_text(views(i.suggestions@))
        &&& plain[k].message == invalid_anchor_text(i) + " at "@ + i.anchor.file_path@ + ":"@ + decimal(
            (i.anchor.line + 1) as nat,
        ) + suggestion_text(views(i.suggestions@))
    } by {
        assert(plain[k] == pi[k] && detailed[k] == di[k]);
    }
    assert forall|k: int| n <= k < plain.len() implies #[trigger] detailed[k].message == plain[k].message
        && detailed[k].file_path == Seq::<char>::empty() && detailed[k].line == 0 by {
        assert(plain[k] == po[k - n] && detailed[k] == dopt[k - n]);
    }
}

/// No diagnostic is both an error and a warning: the two lists share no
/// element and together hold at most all the diagnostics (hints are in
/// neither).
pub proof fn errors_and_warnings_are_disjoint(ds: Seq<SemanticDiagnostic>)
    ensures
        forall|x: SemanticDiagnostic|
            !(#[trigger] with_severity(ds, Severity::Error).contains(x) && with_severity(ds, Severity::Warning).contains(x)),
        with_severity(ds, Severity::Error).len() + with_severity(ds, Severity::Warning).len() <= ds.len(),
{
    let pe = |d: SemanticDiagnostic| d.severity == Severity::Error;
    let pw = |d: SemanticDiagnostic| d.severity == Severity::Warning;
    assert(with_severity(ds, Severity::Error) == ds.filter(pe)) by {
        assert((|d: SemanticDiagnostic| d.severity == Severity::Error) =~= pe);
    }
    assert(with_severity(ds, Severity::Warning) == ds.filter(pw)) by {
        assert((|d: SemanticDiagnostic| d.severity == Severity::Warning) =~= pw);
    }
    crate::text::lemma_filter_contains_iff(ds, pe);
    crate::text::lemma_filter_contains_iff(ds, pw);
    crate::text::lemma_filter_disjoint_len(ds, pe, pw);
}

} // verus!
