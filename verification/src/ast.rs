//! Typed AST nodes for Topos specifications.
//!
//! Every node carries the source span it was read from.
use vstd::prelude::*;

use crate::span::Span;

verus! {

// ============================================================================
// Top-Level Structures
// ============================================================================

/// A complete Topos source file.
#[derive(Debug, Clone)]
pub struct SourceFile {
    /// The spec declaration (e.g., `spec TaskManagement`).
    pub spec: Option<SpecDecl>,
    /// Import statements.
    pub imports: Vec<Import>,
    /// Top-level sections.
    pub sections: Vec<Section>,
    /// Top-level prose (outside sections).
    pub prose: Vec<Prose>,
    /// Source span.
    pub span: Span,
}

/// A spec declaration: `spec Name`.
#[derive(Debug)]
pub struct SpecDecl {
    /// The spec name.
    pub name: Identifier,
    /// Source span.
    pub span: Span,
}

/// An import statement.
#[derive(Debug, Clone)]
pub struct Import {
    /// The import kind.
    pub kind: ImportKind,
    /// Source span.
    pub span: Span,
}

/// Kind of import statement.
#[derive(Debug, Clone)]
pub enum ImportKind {
    /// Import items from a module: `import from "path": Item1, Item2`.
    Items {
        /// Optional source path.
        from: Option<StringLit>,
        /// Items to import.
        items: Vec<ImportItem>,
    },
    /// Import a module as a name: `import "path" as name`.
    Module {
        /// The source path.
        path: StringLit,
        /// The local alias.
        alias: Identifier,
    },
}

/// A single import item.
#[derive(Debug)]
pub struct ImportItem {
    /// The reference to import.
    pub reference: Reference,
    /// Optional local alias.
    pub alias: Option<Identifier>,
    /// Source span.
    pub span: Span,
}

// ============================================================================
// Sections
// ============================================================================

/// A top-level section (starts with `#`).
#[derive(Debug, Clone)]
pub struct Section {
    /// Section header text.
    pub header: Prose,
    /// Section contents.
    pub contents: Vec<SectionContent>,
    /// Source span.
    pub span: Span,
}

/// Content that can appear within a section.
#[derive(Debug, Clone)]
pub enum SectionContent {
    /// A requirement definition.
    Requirement(Requirement),
    /// A concept definition.
    Concept(Concept),
    /// A behavior definition.
    Behavior(Behavior),
    /// An invariant definition.
    Invariant(Invariant),
    /// A task definition.
    Task(Task),
    /// An aesthetic block.
    Aesthetic(Aesthetic),
    /// A foreign code block.
    ForeignBlock(ForeignBlock),
    /// A subsection (## that's not a requirement/task).
    Subsection(Subsection),
    /// Prose content.
    Prose(Prose),
}

/// A subsection (## Header without REQ/TASK pattern).
#[derive(Debug, Clone)]
pub struct Subsection {
    /// Header text.
    pub header: Prose,
    /// Body prose.
    pub body: Vec<Prose>,
    /// Source span.
    pub span: Span,
}

// ============================================================================
// Requirements
// ============================================================================

/// A requirement definition: `## REQ-ID: Title`.
#[derive(Debug, Clone)]
pub struct Requirement {
    /// The requirement ID (e.g., `REQ-AUTH-1`).
    pub id: ReqId,
    /// The requirement title.
    pub title: Prose,
    /// EARS clauses (when/the system shall).
    pub ears_clauses: Vec<EarsClause>,
    /// Acceptance criteria.
    pub acceptance: Option<Acceptance>,
    /// Additional prose.
    pub prose: Vec<Prose>,
    /// Source span.
    pub span: Span,
}

/// A requirement ID (e.g., `REQ-AUTH-1`).
#[derive(Debug)]
pub struct ReqId {
    /// The full ID string.
    pub value: String,
    /// Source span.
    pub span: Span,
}

/// An EARS clause: `when: ... the system shall: ...`.
#[derive(Debug)]
pub struct EarsClause {
    /// The "when" condition.
    pub when: Prose,
    /// The "the system shall" behavior.
    pub shall: Prose,
    /// Source span.
    pub span: Span,
}

/// Acceptance criteria block.
#[derive(Debug, Clone)]
pub struct Acceptance {
    /// The acceptance clauses (given/when/then).
    pub clauses: Vec<AcceptanceClause>,
    /// Source span.
    pub span: Span,
}

/// A single acceptance clause.
#[derive(Debug)]
pub struct AcceptanceClause {
    /// The clause kind.
    pub kind: AcceptanceKind,
    /// The clause content.
    pub content: Prose,
    /// Source span.
    pub span: Span,
}

/// Kind of acceptance clause.
#[derive(Debug, Clone, Copy, PartialEq, Eq, Structural)]
pub enum AcceptanceKind {
    /// `given:` clause.
    Given,
    /// `when:` clause.
    When,
    /// `then:` clause.
    Then,
}

// ============================================================================
// Concepts
// ============================================================================

/// A concept definition: `Concept Name:`.
#[derive(Debug, Clone)]
pub struct Concept {
    /// The concept name.
    pub name: Identifier,
    /// The fields.
    pub fields: Vec<Field>,
    /// Additional prose.
    pub prose: Vec<Prose>,
    /// Source span.
    pub span: Span,
}

/// A field definition within a concept.
#[derive(Debug, Clone)]
pub struct Field {
    /// The field name.
    pub name: Identifier,
    /// The field type (optional).
    pub ty: Option<TypeExpr>,
    /// Field constraints.
    pub constraints: Vec<Constraint>,
    /// Source span.
    pub span: Span,
}

/// A type expression.
#[derive(Debug, Clone)]
pub enum TypeExpr {
    /// A reference to a type: `` `TypeName` ``.
    Reference(Reference),
    /// A typed hole: `[?]` or `[? content]`.
    Hole(TypedHole),
    /// List type: `List of `Type``.
    List { element: Reference, span: Span },
    /// Optional type: `Optional `Type``.
    Optional { inner: Reference, span: Span },
    /// Generic application: `` `Optional` `Type` ``.
    Applied { base: Reference, arg: Reference, span: Span },
    /// Variant type: `one of: A, B, C`.
    OneOf { variants: Vec<Identifier>, span: Span },
}

/// The span that a type expression carries.
pub open spec fn type_expr_span(t: TypeExpr) -> Span {
    match t {
        TypeExpr::Reference(r) => r.span,
        TypeExpr::Hole(h) => h.span,
        TypeExpr::List { span, .. } => span,
        TypeExpr::Optional { span, .. } => span,
        TypeExpr::Applied { span, .. } => span,
        TypeExpr::OneOf { span, .. } => span,
    }
}

impl TypeExpr {
    /// Get the span of this type expression.
    pub fn span(&self) -> (s: Span)
        ensures
            s == type_expr_span(*self),
    {
        match self {
            TypeExpr::Reference(r) => r.span,
            TypeExpr::Hole(h) => h.span,
            TypeExpr::List { span, .. } => *span,
            TypeExpr::Optional { span, .. } => *span,
            TypeExpr::Applied { span, .. } => *span,
            TypeExpr::OneOf { span, .. } => *span,
        }
    }
}

/// A typed hole: `[?]` or `[? content]`.
#[derive(Debug)]
pub struct TypedHole {
    /// Optional hole content (type signature, name, etc.).
    pub content: Option<String>,
    /// Source span.
    pub span: Span,
}

/// A field constraint.
#[derive(Debug)]
pub enum Constraint {
    /// `unique` constraint.
    Unique { span: Span },
    /// `default: value` constraint.
    Default { value: Prose, span: Span },
    /// `derived: expression` constraint.
    Derived { expr: Prose, span: Span },
    /// `invariant: predicate` constraint.
    Invariant { predicate: Prose, span: Span },
    /// `at least N unit` constraint.
    AtLeast { count: u64, unit: Option<Identifier>, span: Span },
}

// ============================================================================
// Behaviors
// ============================================================================

/// A behavior definition: `Behavior Name:`.
#[derive(Debug, Clone)]
pub struct Behavior {
    /// The behavior name.
    pub name: Identifier,
    /// Requirements this behavior implements.
    pub implements: Vec<ReqId>,
    /// Given clauses.
    pub given: Vec<Prose>,
    /// Returns clause.
    pub returns: Option<Prose>,
    /// Requires (precondition) clauses.
    pub requires: Vec<Prose>,
    /// Ensures (postcondition) clauses.
    pub ensures: Vec<Prose>,
    /// EARS clauses.
    pub ears_clauses: Vec<EarsClause>,
    /// Additional prose.
    pub prose: Vec<Prose>,
    /// Source span.
    pub span: Span,
}

// ============================================================================
// Invariants
// ============================================================================

/// An invariant definition: `Invariant Name:`.
#[derive(Debug, Clone)]
pub struct Invariant {
    /// The invariant name.
    pub name: Identifier,
    /// Quantifiers.
    pub quantifiers: Vec<Quantifier>,
    /// Body prose.
    pub prose: Vec<Prose>,
    /// Source span.
    pub span: Span,
}

/// A quantifier: `for each x in Collection:`.
#[derive(Debug)]
pub struct Quantifier {
    /// The bound variable.
    pub var: Identifier,
    /// The collection being iterated.
    pub collection: Reference,
    /// Source span.
    pub span: Span,
}

// ============================================================================
// Tasks
// ============================================================================

/// A task definition: `## TASK-ID: Title [REQ-1, REQ-2]`.
#[derive(Debug, Clone)]
pub struct Task {
    /// The task ID (e.g., `TASK-AUTH-1`).
    pub id: TaskId,
    /// The task title.
    pub title: Prose,
    /// Referenced requirements.
    pub req_refs: Vec<ReqId>,
    /// Task fields (file, tests, status, etc.).
    pub fields: Vec<TaskField>,
    /// Additional prose.
    pub prose: Vec<Prose>,
    /// Source span.
    pub span: Span,
}

/// A task ID (e.g., `TASK-AUTH-1`).
#[derive(Debug)]
pub struct TaskId {
    /// The full ID string.
    pub value: String,
    /// Source span.
    pub span: Span,
}

/// A task field (file, tests, status, etc.).
#[derive(Debug)]
pub struct TaskField {
    /// The field kind.
    pub kind: TaskFieldKind,
    /// The field value.
    pub value: Prose,
    /// Source span.
    pub span: Span,
}

/// Kind of task field.
#[derive(Debug, Clone, Copy, PartialEq, Eq, Structural)]
pub enum TaskFieldKind {
    /// `file:` field.
    File,
    /// `tests:` field.
    Tests,
    /// `depends:` field.
    Depends,
    /// `status:` field.
    Status,
    /// `evidence:` field.
    Evidence,
    /// `context:` field.
    Context,
}

// ============================================================================
// Aesthetics
// ============================================================================

/// An aesthetic block: `Aesthetic Name:`.
#[derive(Debug, Clone)]
pub struct Aesthetic {
    /// The aesthetic name.
    pub name: Identifier,
    /// Aesthetic fields.
    pub fields: Vec<AestheticField>,
    /// Additional prose.
    pub prose: Vec<Prose>,
    /// Source span.
    pub span: Span,
}

/// An aesthetic field: `name: [~] value`.
#[derive(Debug)]
pub struct AestheticField {
    /// The field name.
    pub name: Identifier,
    /// Whether this is a soft constraint (`[~]`).
    pub is_soft: bool,
    /// The field value.
    pub value: Prose,
    /// Source span.
    pub span: Span,
}

// ============================================================================
// Foreign Blocks
// ============================================================================

/// A foreign code block: ```language ... ```.
#[derive(Debug, Clone)]
pub struct ForeignBlock {
    /// The language identifier (e.g., "typespec", "cue").
    pub language: String,
    /// The block content.
    pub content: Vec<Prose>,
    /// Source span.
    pub span: Span,
}

// ============================================================================
// Primitives
// ============================================================================

/// An identifier (alphanumeric name).
#[derive(Debug)]
pub struct Identifier {
    /// The identifier text.
    pub value: String,
    /// Source span.
    pub span: Span,
}

impl Identifier {
    /// Create a new identifier.
    pub fn new(value: &str, span: Span) -> (r: Self)
        ensures
            r.value@ == value@,
            r.span == span,
    {
        Identifier { value: value.to_owned(), span }
    }
}

/// A reference to a concept/type: `` `Name` ``.
#[derive(Debug)]
pub struct Reference {
    /// The referenced name.
    pub name: String,
    /// Source span.
    pub span: Span,
}

impl Reference {
    /// Create a new reference.
    pub fn new(name: &str, span: Span) -> (r: Self)
        ensures
            r.name@ == name@,
            r.span == span,
    {
        Reference { name: name.to_owned(), span }
    }
}

/// A string literal: `"..."`.
#[derive(Debug)]
pub struct StringLit {
    /// The string value (without quotes).
    pub value: String,
    /// Source span.
    pub span: Span,
}

/// Prose text (free-form content).
#[derive(Debug)]
pub struct Prose {
    /// The prose text.
    pub text: String,
    /// Source span.
    pub span: Span,
}

impl Prose {
    /// Create new prose.
    pub fn new(text: &str, span: Span) -> (r: Self)
        ensures
            r.text@ == text@,
            r.span == span,
    {
        Prose { text: text.to_owned(), span }
    }
}

// Copies of the small nodes keep every field.
impl Clone for SpecDecl {
    fn clone(&self) -> (r: Self)
        ensures
            r == *self,
    {
        SpecDecl { name: self.name.clone(), span: self.span }
    }
}

impl Clone for ImportItem {
    fn clone(&self) -> (r: Self)
        ensures
            r == *self,
    {
        ImportItem { reference: self.reference.clone(), alias: self.alias.clone(), span: self.span }
    }
}

impl Clone for ReqId {
    fn clone(&self) -> (r: Self)
        ensures
            r == *self,
    {
        ReqId { value: self.value.clone(), span: self.span }
    }
}

impl Clone for EarsClause {
    fn clone(&self) -> (r: Self)
        ensures
            r == *self,
    {
        EarsClause { when: self.when.clone(), shall: self.shall.clone(), span: self.span }
    }
}

impl Clone for AcceptanceClause {
    fn clone(&self) -> (r: Self)
        ensures
            r == *self,
    {
        AcceptanceClause { kind: self.kind, content: self.content.clone(), span: self.span }
    }
}

impl Clone for TypedHole {
    fn clone(&self) -> (r: Self)
        ensures
            r == *self,
    {
        TypedHole { content: self.content.clone(), span: self.span }
    }
}

impl Clone for Constraint {
    fn clone(&self) -> (r: Self)
        ensures
            r == *self,
    {
        match self {
            Constraint::Unique { span } => Constraint::Unique { span: *span },
            Constraint::Default { value, span } => Constraint::Default { value: value.clone(), span: *span },
            Constraint::Derived { expr, span } => Constraint::Derived { expr: expr.clone(), span: *span },
            Constraint::Invariant { predicate, span } => Constraint::Invariant {
                predicate: predicate.clone(),
                span: *span,
            },
            Constraint::AtLeast { count, unit, span } => Constraint::AtLeast {
                count: *count,
                unit: unit.clone(),
                span: *span,
            },
        }
    }
}

impl Clone for Quantifier {
    fn clone(&self) -> (r: Self)
        ensures
            r == *self,
    {
        Quantifier { var: self.var.clone(), collection: self.collection.clone(), span: self.span }
    }
}

impl Clone for TaskId {
    fn clone(&self) -> (r: Self)
        ensures
            r == *self,
    {
        TaskId { value: self.value.clone(), span: self.span }
    }
}

impl Clone for TaskField {
    fn clone(&self) -> (r: Self)
        ensures
            r == *self,
    {
        TaskField { kind: self.kind, value: self.value.clone(), span: self.span }
    }
}

impl Clone for AestheticField {
    fn clone(&self) -> (r: Self)
        ensures
            r == *self,
    {
        AestheticField {
            name: self.name.clone(),
            is_soft: self.is_soft,
            value: self.value.clone(),
            span: self.span,
        }
    }
}

impl Clone for Identifier {
    fn clone(&self) -> (r: Self)
        ensures
            r == *self,
    {
        Identifier { value: self.value.clone(), span: self.span }
    }
}

impl Clone for Reference {
    fn clone(&self) -> (r: Self)
        ensures
            r == *self,
    {
        Reference { name: self.name.clone(), span: self.span }
    }
}

impl Clone for StringLit {
    fn clone(&self) -> (r: Self)
        ensures
            r == *self,
    {
        StringLit { value: self.value.clone(), span: self.span }
    }
}

impl Clone for Prose {
    fn clone(&self) -> (r: Self)
        ensures
            r == *self,
    {
        Prose { text: self.text.clone(), span: self.span }
    }
}

// ============================================================================
// Visitor Trait
// ============================================================================

/// One call on a visitor: the method called and the node it was given.
pub enum Visit {
    SourceFile(SourceFile),
    Section(Section),
    Requirement(Requirement),
    Concept(Concept),
    Behavior(Behavior),
    Invariant(Invariant),
    Task(Task),
    Aesthetic(Aesthetic),
    Hole(TypedHole),
}

/// Trait for visiting AST nodes.
///
/// `visits` is the record of the calls a visitor has received; each method
/// adds its own call to the end of it.
pub trait Visitor {
    /// The calls received so far, in order.
    spec fn visits(&self) -> Seq<Visit>;

    /// Visit a source file.
    fn visit_source_file(&mut self, file: &SourceFile)
        ensures
            final(self).visits() == old(self).visits().push(Visit::SourceFile(*file)),
    ;

    /// Visit a section.
    fn visit_section(&mut self, section: &Section)
        ensures
            final(self).visits() == old(self).visits().push(Visit::Section(*section)),
    ;

    /// Visit a requirement.
    fn visit_requirement(&mut self, req: &Requirement)
        ensures
            final(self).visits() == old(self).visits().push(Visit::Requirement(*req)),
    ;

    /// Visit a concept.
    fn visit_concept(&mut self, concept: &Concept)
        ensures
            final(self).visits() == old(self).visits().push(Visit::Concept(*concept)),
    ;

    /// Visit a behavior.
    fn visit_behavior(&mut self, behavior: &Behavior)
        ensures
            final(self).visits() == old(self).visits().push(Visit::Behavior(*behavior)),
    ;

    /// Visit an invariant.
    fn visit_invariant(&mut self, inv: &Invariant)
        ensures
            final(self).visits() == old(self).visits().push(Visit::Invariant(*inv)),
    ;

    /// Visit a task.
    fn visit_task(&mut self, task: &Task)
        ensures
            final(self).visits() == old(self).visits().push(Visit::Task(*task)),
    ;

    /// Visit an aesthetic block.
    fn visit_aesthetic(&mut self, aesthetic: &Aesthetic)
        ensures
            final(self).visits() == old(self).visits().push(Visit::Aesthetic(*aesthetic)),
    ;

    /// Visit a typed hole.
    fn visit_hole(&mut self, hole: &TypedHole)
        ensures
            final(self).visits() == old(self).visits().push(Visit::Hole(*hole)),
    ;
}

/// The call a walk makes for one section content: one for a requirement,
/// concept, behavior, invariant, task or aesthetic block; none for a foreign
/// block, a subsection or prose.
pub open spec fn content_visits(c: SectionContent) -> Seq<Visit> {
    match c {
        SectionContent::Requirement(r) => seq![Visit::Requirement(r)],
        SectionContent::Concept(k) => seq![Visit::Concept(k)],
        SectionContent::Behavior(b) => seq![Visit::Behavior(b)],
        SectionContent::Invariant(i) => seq![Visit::Invariant(i)],
        SectionContent::Task(t) => seq![Visit::Task(t)],
        SectionContent::Aesthetic(a) => seq![Visit::Aesthetic(a)],
        _ => Seq::empty(),
    }
}

/// The calls for a list of contents, in order.
pub open spec fn contents_visits(cs: Seq<SectionContent>) -> Seq<Visit>
    decreases cs.len(),
{
    if cs.len() == 0 {
        Seq::empty()
    } else {
        contents_visits(cs.drop_last()) + content_visits(cs.last())
    }
}

/// The calls for a list of sections: each section, then its contents.
pub open spec fn sections_visits(ss: Seq<Section>) -> Seq<Visit>
    decreases ss.len(),
{
    if ss.len() == 0 {
        Seq::empty()
    } else {
        sections_visits(ss.drop_last()) + seq![Visit::Section(ss.last())] + contents_visits(ss.last().contents@)
    }
}

/// The calls a walk of `f` makes: the file, then each section followed by
/// the calls for its contents, in order; never a hole.
pub open spec fn walk_visits(f: SourceFile) -> Seq<Visit> {
    seq![Visit::SourceFile(f)] + sections_visits(f.sections@)
}

/// Walk an AST with a visitor: the file, then each section followed by the
/// requirements, concepts, behaviors, invariants, tasks and aesthetic blocks it
/// holds, in order.
pub fn walk<V: Visitor>(visitor: &mut V, file: &SourceFile)
    ensures
        final(visitor).visits() == old(visitor).visits() + walk_visits(*file),
{
    let ghost v0 = visitor.visits();
    visitor.visit_source_file(file);
    let mut i: usize = 0;
    while i < file.sections.len()
        invariant
            i <= file.sections@.len(),
            visitor.visits() == v0 + seq![Visit::SourceFile(*file)] + sections_visits(file.sections@.take(i as int)),
        decreases file.sections.len() - i,
    {
        proof {
            assert(file.sections@.take(i + 1).drop_last() =~= file.sections@.take(i as int));
        }
        let section = &file.sections[i];
        visitor.visit_section(section);
        let ghost before = visitor.visits();
        let mut j: usize = 0;
        while j < section.contents.len()
            invariant
                j <= section.contents@.len(),
                visitor.visits() == before + contents_visits(section.contents@.take(j as int)),
            decreases section.contents.len() - j,
        {
            proof {
                assert(section.contents@.take(j + 1).drop_last() =~= section.contents@.take(j as int));
            }
            let ghost w0 = visitor.visits();
            match &section.contents[j] {
                SectionContent::Requirement(r) => visitor.visit_requirement(r),
                SectionContent::Concept(c) => visitor.visit_concept(c),
                SectionContent::Behavior(b) => visitor.visit_behavior(b),
                SectionContent::Invariant(inv) => visitor.visit_invariant(inv),
                SectionContent::Task(t) => visitor.visit_task(t),
                SectionContent::Aesthetic(a) => visitor.visit_aesthetic(a),
                _ => {},
            }
            assert(visitor.visits() =~= w0 + content_visits(section.contents@[j as int]));
            j += 1;
        }
        assert(section.contents@.take(j as int) =~= section.contents@);
        assert(visitor.visits() =~= v0 + seq![Visit::SourceFile(*file)] + sections_visits(
            file.sections@.take(i + 1),
        ));
        i += 1;
    }
    assert(file.sections@.take(i as int) =~= file.sections@);
    assert(visitor.visits() =~= v0 + walk_visits(*file));
}

/// The method of a visitor that a call went to.
#[derive(Debug, Clone, Copy, PartialEq, Eq, Structural)]
pub enum VisitKind {
    SourceFile,
    Section,
    Requirement,
    Concept,
    Behavior,
    Invariant,
    Task,
    Aesthetic,
    Hole,
}

/// The method a call went to.
pub open spec fn visit_kind(v: Visit) -> VisitKind {
    match v {
        Visit::SourceFile(_) => VisitKind::SourceFile,
        Visit::Section(_) => VisitKind::Section,
        Visit::Requirement(_) => VisitKind::Requirement,
        Visit::Concept(_) => VisitKind::Concept,
        Visit::Behavior(_) => VisitKind::Behavior,
        Visit::Invariant(_) => VisitKind::Invariant,
        Visit::Task(_) => VisitKind::Task,
        Visit::Aesthetic(_) => VisitKind::Aesthetic,
        Visit::Hole(_) => VisitKind::Hole,
    }
}

/// A visitor that notes which method each call went to.
pub struct VisitLog {
    kinds: Vec<VisitKind>,
    log: Ghost<Seq<Visit>>,
}

impl VisitLog {
    /// Each noted method is that of the call at the same place.
    #[verifier::type_invariant]
    spec fn kinds_match(self) -> bool {
        self.kinds@ == self.log@.map_values(|v: Visit| visit_kind(v))
    }

    /// A log with no calls.
    pub fn new() -> (l: Self)
        ensures
            l.visits() == Seq::<Visit>::empty(),
    {
        let kinds: Vec<VisitKind> = Vec::new();
        let ghost log = Seq::<Visit>::empty();
        assert(kinds@ =~= log.map_values(|v: Visit| visit_kind(v)));
        VisitLog { kinds, log: Ghost(log) }
    }

    /// The methods called so far, in order.
    pub fn kinds(&self) -> (r: &Vec<VisitKind>)
        ensures
            r@ == self.visits().map_values(|v: Visit| visit_kind(v)),
    {
        proof {
            use_type_invariant(self);
        }
        &self.kinds
    }

    fn note(&mut self, k: VisitKind, Ghost(v): Ghost<Visit>)
        requires
            visit_kind(v) == k,
        ensures
            final(self).log@ == old(self).log@.push(v),
    {
        let mut taken = VisitLog::new();
        std::mem::swap(self, &mut taken);
        proof {
            use_type_invariant(&taken);
        }
        let VisitLog { mut kinds, log } = taken;
        let ghost k0 = kinds@;
        kinds.push(k);
        let ghost pushed = log@.push(v);
        assert(kinds@ =~= pushed.map_values(|x: Visit| visit_kind(x))) by {
            assert(k0 =~= log@.map_values(|x: Visit| visit_kind(x)));
        }
        *self = VisitLog { kinds, log: Ghost(pushed) };
    }
}

impl Visitor for VisitLog {
    closed spec fn visits(&self) -> Seq<Visit> {
        self.log@
    }
    fn visit_source_file(&mut self, file: &SourceFile) {
        self.note(VisitKind::SourceFile, Ghost(Visit::SourceFile(*file)));
    }

    fn visit_section(&mut self, section: &Section) {
        self.note(VisitKind::Section, Ghost(Visit::Section(*section)));
    }

    fn visit_requirement(&mut self, req: &Requirement) {
        self.note(VisitKind::Requirement, Ghost(Visit::Requirement(*req)));
    }

    fn visit_concept(&mut self, concept: &Concept) {
        self.note(VisitKind::Concept, Ghost(Visit::Concept(*concept)));
    }

    fn visit_behavior(&mut self, behavior: &Behavior) {
        self.note(VisitKind::Behavior, Ghost(Visit::Behavior(*behavior)));
    }

    fn visit_invariant(&mut self, inv: &Invariant) {
        self.note(VisitKind::Invariant, Ghost(Visit::Invariant(*inv)));
    }

    fn visit_task(&mut self, task: &Task) {
        self.note(VisitKind::Task, Ghost(Visit::Task(*task)));
    }

    fn visit_aesthetic(&mut self, aesthetic: &Aesthetic) {
        self.note(VisitKind::Aesthetic, Ghost(Visit::Aesthetic(*aesthetic)));
    }

    fn visit_hole(&mut self, hole: &TypedHole) {
        self.note(VisitKind::Hole, Ghost(Visit::Hole(*hole)));
    }
}

/// The methods a walk of `file` calls, in order.
pub fn visit_order(file: &SourceFile) -> (r: Vec<VisitKind>)
    ensures
        r@ == walk_visits(*file).map_values(|v: Visit| visit_kind(v)),
{
    let mut log = VisitLog::new();
    walk(&mut log, file);
    assert(log.visits() =~= walk_visits(*file));
    let kinds = log.kinds();
    kinds.clone()
}

// ============================================================================
// Queries over a file
// ============================================================================

/// The contents of `sections`, section by section, in source order.
pub open spec fn flat_contents(sections: Seq<Section>) -> Seq<SectionContent>
    decreases sections.len(),
{
    if sections.len() == 0 {
        Seq::empty()
    } else {
        flat_contents(sections.drop_last()) + sections.last().contents@
    }
}

/// All section contents of `f`, section by section, in source order.
pub open spec fn all_contents(f: SourceFile) -> Seq<SectionContent> {
    flat_contents(f.sections@)
}

/// All section contents of `file`, section by section, in source order.
pub fn contents_of(file: &SourceFile) -> (r: Vec<&SectionContent>)
    ensures
        r@.map_values(|c: &SectionContent| *c) == all_contents(*file),
{
    let mut r: Vec<&SectionContent> = Vec::new();
    let mut i: usize = 0;
    while i < file.sections.len()
        invariant
            i <= file.sections@.len(),
            r@.map_values(|c: &SectionContent| *c) == flat_contents(file.sections@.take(i as int)),
        decreases file.sections.len() - i,
    {
        let section = &file.sections[i];
        let ghost before = r@.map_values(|c: &SectionContent| *c);
        let mut j: usize = 0;
        while j < section.contents.len()
            invariant
                i < file.sections@.len(),
                *section == file.sections@[i as int],
                j <= section.contents@.len(),
                r@.map_values(|c: &SectionContent| *c) == before + section.contents@.take(j as int),
            decreases section.contents.len() - j,
        {
            let ghost r0 = r@;
            let item = &section.contents[j];
            r.push(item);
            assert(r@ == r0.push(item));
            assert(r0.map_values(|c: &SectionContent| *c) == before + section.contents@.take(j as int));
            assert(r@.map_values(|c: &SectionContent| *c) =~= r0.map_values(|c: &SectionContent| *c).push(*item));
            j += 1;
            assert(r@.map_values(|c: &SectionContent| *c) =~= before + section.contents@.take(j as int));
        }
        assert(section.contents@.take(j as int) =~= section.contents@);
        assert(file.sections@.take(i + 1).drop_last() =~= file.sections@.take(i as int));
        i += 1;
    }
    assert(file.sections@.take(i as int) =~= file.sections@);
    r
}

} // verus!
