//! Reference resolution for Topos specifications.
//!
//! Type references in concept fields resolve to concepts; requirement
//! references in behaviors' `implements` lists and tasks' `[REQ-*]` lists
//! resolve to requirements.
use vstd::prelude::*;

use crate::ast::{all_contents, contents_of, Behavior, Field, ReqId, SectionContent, SourceFile, Task, TypeExpr};
use crate::span::Span;
use crate::symbols::{kind_maps_consistent, symbols, symbols_of, Symbol, SymbolTable, SymbolView, TableModel};
use crate::text::{concat_map, lemma_concat_map_push, lemma_filter_take_push};

verus! {

/// A reference to a symbol in source code.
#[derive(Debug)]
pub struct Reference {
    /// The referenced name.
    pub name: String,
    /// The kind of reference.
    pub kind: ReferenceKind,
    /// Source location of the reference.
    pub span: Span,
}

/// Kinds of references in Topos.
#[derive(Debug, Clone, Copy, PartialEq, Eq, Structural)]
pub enum ReferenceKind {
    /// A type reference (backtick notation): `TypeName`.
    Type,
    /// A requirement reference: REQ-*.
    Requirement,
    /// A task reference: TASK-*.
    Task,
    /// A concept reference in prose or implements clause.
    Concept,
}

/// Result of resolving a reference.
#[derive(Debug)]
pub struct ResolvedReference {
    /// The reference itself.
    pub reference: Reference,
    /// The resolved symbol, if found.
    pub symbol: Option<Symbol>,
}

/// What a resolved reference says, its strings taken by their views.
pub struct ResolvedView {
    pub name: Seq<char>,
    pub kind: ReferenceKind,
    pub span: Span,
    pub symbol: Option<SymbolView>,
}

impl View for ResolvedReference {
    type V = ResolvedView;

    open spec fn view(&self) -> ResolvedView {
        ResolvedView {
            name: self.reference.name@,
            kind: self.reference.kind,
            span: self.reference.span,
            symbol: match self.symbol {
                Some(s) => Some(s@),
                None => None,
            },
        }
    }
}

/// All references in a file with their resolution status.
#[derive(Debug)]
pub struct ResolvedReferences {
    /// All references found in the file.
    pub references: Vec<ResolvedReference>,
}

/// The views of a sequence of resolved references.
pub open spec fn resolved_views(s: Seq<ResolvedReference>) -> Seq<ResolvedView> {
    s.map_values(|r: ResolvedReference| r@)
}

/// The references of `s` that `p` keeps, in order.
fn select<'a>(s: &'a Vec<ResolvedReference>, want_resolved: bool) -> (r: Vec<&'a ResolvedReference>)
    ensures
        r@.map_values(|x: &ResolvedReference| *x) == s@.filter(
            |x: ResolvedReference| (x.symbol is Some) == want_resolved,
        ),
{
    let ghost p = |x: ResolvedReference| (x.symbol is Some) == want_resolved;
    let mut r: Vec<&ResolvedReference> = Vec::new();
    let mut i: usize = 0;
    while i < s.len()
        invariant
            i <= s@.len(),
            p == (|x: ResolvedReference| (x.symbol is Some) == want_resolved),
            r@.map_values(|x: &ResolvedReference| *x) == s@.take(i as int).filter(p),
        decreases s.len() - i,
    {
        proof {
            lemma_filter_take_push(s@, p, i as int);
        }
        let item = &s[i];
        if item.symbol.is_some() == want_resolved {
            let ghost r0 = r@;
            r.push(item);
            assert(r@.map_values(|x: &ResolvedReference| *x) =~= r0.map_values(
                |x: &ResolvedReference| *x,
            ).push(*item));
        }
        i += 1;
    }
    assert(s@.take(i as int) =~= s@);
    r
}

/// The references of `rs` that resolved, in order.
pub open spec fn resolved_refs(rs: Seq<ResolvedReference>) -> Seq<ResolvedReference> {
    rs.filter(|r: ResolvedReference| r.symbol is Some)
}

/// The references of `rs` that did not resolve, in order.
pub open spec fn unresolved_refs(rs: Seq<ResolvedReference>) -> Seq<ResolvedReference> {
    rs.filter(|r: ResolvedReference| !(r.symbol is Some))
}

impl ResolvedReferences {
    /// Get all unresolved references, in order.
    pub fn unresolved(&self) -> (r: Vec<&ResolvedReference>)
        ensures
            r@.map_values(|x: &ResolvedReference| *x) == unresolved_refs(self.references@),
    {
        let r = select(&self.references, false);
        assert((|x: ResolvedReference| (x.symbol is Some) == false) =~= (|x: ResolvedReference|
            !(x.symbol is Some)));
        r
    }

    /// Get all resolved references, in order.
    pub fn resolved(&self) -> (r: Vec<&ResolvedReference>)
        ensures
            r@.map_values(|x: &ResolvedReference| *x) == resolved_refs(self.references@),
    {
        let r = select(&self.references, true);
        assert((|x: ResolvedReference| (x.symbol is Some) == true) =~= (|x: ResolvedReference|
            x.symbol is Some));
        r
    }
}

/// The value stored under `k`, if any.
pub open spec fn lookup(m: Map<Seq<char>, SymbolView>, k: Seq<char>) -> Option<SymbolView> {
    if m.contains_key(k) {
        Some(m[k])
    } else {
        None
    }
}

/// A type reference to `name` at `span`, resolved against the concepts.
pub open spec fn type_ref(t: TableModel, name: Seq<char>, span: Span) -> ResolvedView {
    ResolvedView { name, kind: ReferenceKind::Type, span, symbol: lookup(t.concepts, name) }
}

/// A requirement reference, resolved against the requirements.
pub open spec fn req_ref(t: TableModel, id: ReqId) -> ResolvedView {
    ResolvedView {
        name: id.value@,
        kind: ReferenceKind::Requirement,
        span: id.span,
        symbol: lookup(t.requirements, id.value@),
    }
}

/// The references of a type expression: the referenced names of a reference,
/// list or optional type, base then argument of an applied type; none for a
/// hole or a variant list.
pub open spec fn type_refs(t: TableModel, ty: TypeExpr) -> Seq<ResolvedView> {
    match ty {
        TypeExpr::Reference(r) => seq![type_ref(t, r.name@, r.span)],
        TypeExpr::List { element, .. } => seq![type_ref(t, element.name@, element.span)],
        TypeExpr::Optional { inner, .. } => seq![type_ref(t, inner.name@, inner.span)],
        TypeExpr::Applied { base, arg, .. } => seq![
            type_ref(t, base.name@, base.span),
            type_ref(t, arg.name@, arg.span),
        ],
        _ => Seq::empty(),
    }
}

/// The references of a field: those of its type, if it has one.
pub open spec fn field_refs(t: TableModel, f: Field) -> Seq<ResolvedView> {
    match f.ty {
        Some(ty) => type_refs(t, ty),
        None => Seq::empty(),
    }
}

/// The references of one section content.
pub open spec fn content_refs(t: TableModel, c: SectionContent) -> Seq<ResolvedView> {
    match c {
        SectionContent::Concept(concept) => concat_map(concept.fields@, |f: Field| field_refs(t, f)),
        SectionContent::Behavior(b) => b.implements@.map_values(|id: ReqId| req_ref(t, id)),
        SectionContent::Task(task) => task.req_refs@.map_values(|id: ReqId| req_ref(t, id)),
        _ => Seq::empty(),
    }
}

/// The references of a file, resolved against its own symbol table, in source order.
pub open spec fn references_of(f: SourceFile) -> Seq<ResolvedView> {
    concat_map(all_contents(f), |c: SectionContent| content_refs(symbols_of(f), c))
}

fn concept_symbol(symbols: &SymbolTable, name: &str) -> (r: Option<Symbol>)
    ensures
        match r {
            Some(s) => lookup(symbols@.concepts, name@) == Some(s@),
            None => lookup(symbols@.concepts, name@) is None,
        },
{
    match symbols.get_concept(name) {
        Some(s) => Some(s.clone()),
        None => None,
    }
}

fn requirement_symbol_of(symbols: &SymbolTable, id: &str) -> (r: Option<Symbol>)
    ensures
        match r {
            Some(s) => lookup(symbols@.requirements, id@) == Some(s@),
            None => lookup(symbols@.requirements, id@) is None,
        },
{
    match symbols.get_requirement(id) {
        Some(s) => Some(s.clone()),
        None => None,
    }
}

fn push_type_ref(name: &String, span: Span, symbols: &SymbolTable, references: &mut Vec<ResolvedReference>)
    ensures
        resolved_views(final(references)@) == resolved_views(old(references)@).push(
            type_ref(symbols@, name@, span),
        ),
{
    let symbol = concept_symbol(symbols, name.as_str());
    references.push(
        ResolvedReference {
            reference: Reference { name: name.clone(), kind: ReferenceKind::Type, span },
            symbol,
        },
    );
    assert(resolved_views(references@) =~= resolved_views(old(references)@).push(
        type_ref(symbols@, name@, span),
    ));
}

/// Collect references from a type expression.
fn collect_type_references(ty: &TypeExpr, symbols: &SymbolTable, references: &mut Vec<ResolvedReference>)
    ensures
        resolved_views(final(references)@) == resolved_views(old(references)@) + type_refs(
            symbols@,
            *ty,
        ),
{
    match ty {
        TypeExpr::Reference(r) => {
            push_type_ref(&r.name, r.span, symbols, references);
        },
        TypeExpr::List { element, .. } => {
            push_type_ref(&element.name, element.span, symbols, references);
        },
        TypeExpr::Optional { inner, .. } => {
            push_type_ref(&inner.name, inner.span, symbols, references);
        },
        TypeExpr::Applied { base, arg, .. } => {
            push_type_ref(&base.name, base.span, symbols, references);
            push_type_ref(&arg.name, arg.span, symbols, references);
        },
        _ => {},
    }
    assert(resolved_views(references@) =~= resolved_views(old(references)@) + type_refs(
        symbols@,
        *ty,
    ));
}

/// Collect references from a field definition.
fn collect_field_references(field: &Field, symbols: &SymbolTable, references: &mut Vec<ResolvedReference>)
    ensures
        resolved_views(final(references)@) == resolved_views(old(references)@) + field_refs(
            symbols@,
            *field,
        ),
{
    if let Some(ty) = &field.ty {
        collect_type_references(ty, symbols, references);
    } else {
        assert(resolved_views(references@) =~= resolved_views(old(references)@) + field_refs(
            symbols@,
            *field,
        ));
    }
}

/// Collect requirement references from a list of IDs.
fn collect_req_references(ids: &Vec<ReqId>, symbols: &SymbolTable, references: &mut Vec<ResolvedReference>)
    ensures
        resolved_views(final(references)@) == resolved_views(old(references)@) + ids@.map_values(
            |id: ReqId| req_ref(symbols@, id),
        ),
{
    let ghost start = resolved_views(references@);
    let mut i: usize = 0;
    while i < ids.len()
        invariant
            i <= ids@.len(),
            resolved_views(references@) == start + ids@.take(i as int).map_values(
                |id: ReqId| req_ref(symbols@, id),
            ),
        decreases ids.len() - i,
    {
        let id = &ids[i];
        let symbol = requirement_symbol_of(symbols, id.value.as_str());
        let ghost r0 = references@;
        references.push(
            ResolvedReference {
                reference: Reference {
                    name: id.value.clone(),
                    kind: ReferenceKind::Requirement,
                    span: id.span,
                },
                symbol,
            },
        );
        assert(resolved_views(references@) =~= resolved_views(r0).push(req_ref(symbols@, *id)));
        assert(ids@.take(i + 1).map_values(|id: ReqId| req_ref(symbols@, id)) =~= ids@.take(
            i as int,
        ).map_values(|id: ReqId| req_ref(symbols@, id)).push(req_ref(symbols@, ids@[i as int])));
        i += 1;
    }
    assert(ids@.take(i as int) =~= ids@);
}

/// Collect references from a behavior definition.
fn collect_behavior_references(
    behavior: &Behavior,
    symbols: &SymbolTable,
    references: &mut Vec<ResolvedReference>,
)
    ensures
        resolved_views(final(references)@) == resolved_views(old(references)@) + content_refs(
            symbols@,
            SectionContent::Behavior(*behavior),
        ),
{
    collect_req_references(&behavior.implements, symbols, references);
}

/// Collect references from a task definition.
fn collect_task_references(task: &Task, symbols: &SymbolTable, references: &mut Vec<ResolvedReference>)
    ensures
        resolved_views(final(references)@) == resolved_views(old(references)@) + content_refs(
            symbols@,
            SectionContent::Task(*task),
        ),
{
    collect_req_references(&task.req_refs, symbols, references);
}

/// Collect all references from an AST and resolve them.
fn collect_references(ast: &SourceFile, symbols: &SymbolTable, references: &mut Vec<ResolvedReference>)
    ensures
        resolved_views(final(references)@) == resolved_views(old(references)@) + concat_map(
            all_contents(*ast),
            |c: SectionContent| content_refs(symbols@, c),
        ),
{
    let contents = contents_of(ast);
    let ghost cs = contents@.map_values(|c: &SectionContent| *c);
    let ghost f = |c: SectionContent| content_refs(symbols@, c);
    let ghost start = resolved_views(references@);
    let mut i: usize = 0;
    while i < contents.len()
        invariant
            i <= contents@.len(),
            cs == contents@.map_values(|c: &SectionContent| *c),
            f == (|c: SectionContent| content_refs(symbols@, c)),
            resolved_views(references@) == start + concat_map(cs.take(i as int), f),
        decreases contents.len() - i,
    {
        proof {
            lemma_concat_map_push(cs, f, i as int);
        }
        assert(cs[i as int] == *contents@[i as int]);
        let ghost before = resolved_views(references@);
        match contents[i] {
            SectionContent::Concept(concept) => {
                let ghost g = |fd: Field| field_refs(symbols@, fd);
                let mut j: usize = 0;
                while j < concept.fields.len()
                    invariant
                        j <= concept.fields@.len(),
                        g == (|fd: Field| field_refs(symbols@, fd)),
                        resolved_views(references@) == before + concat_map(concept.fields@.take(j as int), g),
                    decreases concept.fields.len() - j,
                {
                    proof {
                        lemma_concat_map_push(concept.fields@, g, j as int);
                    }
                    collect_field_references(&concept.fields[j], symbols, references);
                    j += 1;
                }
                assert(concept.fields@.take(j as int) =~= concept.fields@);
            },
            SectionContent::Behavior(behavior) => {
                collect_behavior_references(behavior, symbols, references);
            },
            SectionContent::Task(task) => {
                collect_task_references(task, symbols, references);
            },
            _ => {
                assert(content_refs(symbols@, cs[i as int]) =~= Seq::<ResolvedView>::empty());
            },
        }
        i += 1;
    }
    assert(cs.take(i as int) =~= cs);
}

/// Collect and resolve all references in a file.
pub fn resolve_references(ast: &SourceFile) -> (r: ResolvedReferences)
    ensures
        resolved_views(r.references@) == references_of(*ast),
{
    let symbol_table = symbols(ast);
    let mut references: Vec<ResolvedReference> = Vec::new();
    assert(resolved_views(references@) =~= Seq::<ResolvedView>::empty());
    collect_references(ast, &symbol_table, &mut references);
    assert(resolved_views(references@) =~= references_of(*ast));
    ResolvedReferences { references }
}

/// What `resolve` finds for `name`: a requirement, else a task, else a concept,
/// else a behavior, else any symbol of that name.
pub open spec fn resolve_spec(t: TableModel, name: Seq<char>) -> Option<SymbolView> {
    if t.requirements.contains_key(name) {
        Some(t.requirements[name])
    } else if t.tasks.contains_key(name) {
        Some(t.tasks[name])
    } else if t.concepts.contains_key(name) {
        Some(t.concepts[name])
    } else if t.behaviors.contains_key(name) {
        Some(t.behaviors[name])
    } else {
        lookup(t.symbols, name)
    }
}

/// Resolve a single reference by name.
pub fn resolve<'a>(symbols: &'a SymbolTable, name: &str) -> (r: Option<&'a Symbol>)
    ensures
        match r {
            Some(s) => resolve_spec(symbols@, name@) == Some(s@),
            None => resolve_spec(symbols@, name@) is None,
        },
{
    if let Some(s) = symbols.get_requirement(name) {
        return Some(s);
    }
    if let Some(s) = symbols.get_task(name) {
        return Some(s);
    }
    if let Some(s) = symbols.get_concept(name) {
        return Some(s);
    }
    if let Some(s) = symbols.get_behavior(name) {
        return Some(s);
    }
    symbols.get(name)
}

/// Resolution tries the requirements, tasks, concepts and behaviors in that
/// order, then all symbols; where every entry of a kind map is also a symbol
/// (as `SymbolTable::new`, `add` and `symbols` keep it), a name resolves
/// exactly when the table holds a symbol of that name.
pub proof fn resolves_exactly_the_table_names(t: TableModel, name: Seq<char>)
    requires
        kind_maps_consistent(t),
    ensures
        resolve_spec(t, name) is Some <==> t.symbols.contains_key(name),
{
}

/// Every reference is either resolved or unresolved: the two lists share no
/// element and together are exactly as long as all the references.
pub proof fn resolved_and_unresolved_split_the_references(rs: Seq<ResolvedReference>)
    ensures
        forall|x: ResolvedReference| !(#[trigger] resolved_refs(rs).contains(x) && unresolved_refs(rs).contains(x)),
        resolved_refs(rs).len() + unresolved_refs(rs).len() == rs.len(),
{
    let pr = |r: ResolvedReference| r.symbol is Some;
    let pu = |r: ResolvedReference| !(r.symbol is Some);
    assert(resolved_refs(rs) == rs.filter(pr)) by {
        assert((|r: ResolvedReference| r.symbol is Some) =~= pr);
    }
    assert(unresolved_refs(rs) == rs.filter(pu)) by {
        assert((|r: ResolvedReference| !(r.symbol is Some)) =~= pu);
    }
    crate::text::lemma_filter_contains_iff(rs, pr);
    crate::text::lemma_filter_contains_iff(rs, pu);
    crate::text::lemma_filter_disjoint_len(rs, pr, pu);
}

} // verus!
