//! Symbol table construction for Topos specifications.
//!
//! Every requirement, task, concept (and each of its fields), behavior and
//! invariant of a file becomes a symbol. A later definition of the same name
//! replaces an earlier one.
use vstd::prelude::*;

use crate::ast::{all_contents, contents_of, Behavior, Concept, Field, Invariant, Requirement, SectionContent, SourceFile, Task, TaskField, TaskFieldKind};
use crate::span::Span;
use crate::strmap::StrMap;
use crate::text::{push_char, push_str, trim, trimmed};

verus! {

/// A symbol in the symbol table.
#[derive(Debug)]
pub struct Symbol {
    /// The symbol name/identifier.
    pub name: String,
    /// The kind of symbol.
    pub kind: SymbolKind,
    /// Human-readable title (for requirements, tasks).
    pub title: Option<String>,
    /// Status (for tasks: pending, in_progress, done).
    pub status: Option<String>,
    /// Source location where the symbol is defined.
    pub span: Span,
}

impl Clone for Symbol {
    fn clone(&self) -> (r: Self)
        ensures
            r == *self,
    {
        Symbol {
            name: self.name.clone(),
            kind: self.kind,
            title: self.title.clone(),
            status: self.status.clone(),
            span: self.span,
        }
    }
}

/// Kinds of symbols in Topos.
#[derive(Debug, Clone, Copy, PartialEq, Eq, Hash, Structural)]
pub enum SymbolKind {
    /// A requirement (REQ-*).
    Requirement,
    /// A task (TASK-*).
    Task,
    /// A concept definition.
    Concept,
    /// A behavior definition.
    Behavior,
    /// An invariant definition.
    Invariant,
    /// A field within a concept.
    Field,
}

/// The view of an optional string.
pub open spec fn opt_view(o: Option<String>) -> Option<Seq<char>> {
    match o {
        Some(s) => Some(s@),
        None => None,
    }
}

/// What a symbol says, with its strings taken by their views.
pub struct SymbolView {
    pub name: Seq<char>,
    pub kind: SymbolKind,
    pub title: Option<Seq<char>>,
    pub status: Option<Seq<char>>,
    pub span: Span,
}

impl View for Symbol {
    type V = SymbolView;

    open spec fn view(&self) -> SymbolView {
        SymbolView {
            name: self.name@,
            kind: self.kind,
            title: opt_view(self.title),
            status: opt_view(self.status),
            span: self.span,
        }
    }
}

/// The views of the symbols of a map.
pub open spec fn symbol_views(m: Map<Seq<char>, Symbol>) -> Map<Seq<char>, SymbolView> {
    m.map_values(|s: Symbol| s@)
}

/// The six maps of a symbol table.
pub struct TableModel {
    pub symbols: Map<Seq<char>, SymbolView>,
    pub requirements: Map<Seq<char>, SymbolView>,
    pub tasks: Map<Seq<char>, SymbolView>,
    pub concepts: Map<Seq<char>, SymbolView>,
    pub behaviors: Map<Seq<char>, SymbolView>,
    pub invariants: Map<Seq<char>, SymbolView>,
}

/// The table with no symbols.
pub open spec fn empty_model() -> TableModel {
    TableModel {
        symbols: Map::empty(),
        requirements: Map::empty(),
        tasks: Map::empty(),
        concepts: Map::empty(),
        behaviors: Map::empty(),
        invariants: Map::empty(),
    }
}

/// `t` with `s` added: stored under its name in the map of all symbols and in
/// the map of its kind (fields go to the map of all symbols only).
pub open spec fn model_add(t: TableModel, s: SymbolView) -> TableModel {
    TableModel {
        symbols: t.symbols.insert(s.name, s),
        requirements: if s.kind == SymbolKind::Requirement {
            t.requirements.insert(s.name, s)
        } else {
            t.requirements
        },
        tasks: if s.kind == SymbolKind::Task {
            t.tasks.insert(s.name, s)
        } else {
            t.tasks
        },
        concepts: if s.kind == SymbolKind::Concept {
            t.concepts.insert(s.name, s)
        } else {
            t.concepts
        },
        behaviors: if s.kind == SymbolKind::Behavior {
            t.behaviors.insert(s.name, s)
        } else {
            t.behaviors
        },
        invariants: if s.kind == SymbolKind::Invariant {
            t.invariants.insert(s.name, s)
        } else {
            t.invariants
        },
    }
}

/// A symbol table containing all defined symbols.
#[derive(Debug)]
pub struct SymbolTable {
    /// All symbols indexed by name.
    pub symbols: StrMap<Symbol>,
    /// Requirements by ID.
    pub requirements: StrMap<Symbol>,
    /// Tasks by ID.
    pub tasks: StrMap<Symbol>,
    /// Concepts by name.
    pub concepts: StrMap<Symbol>,
    /// Behaviors by name.
    pub behaviors: StrMap<Symbol>,
    /// Invariants by name.
    pub invariants: StrMap<Symbol>,
}

impl View for SymbolTable {
    type V = TableModel;

    open spec fn view(&self) -> TableModel {
        TableModel {
            symbols: symbol_views(self.symbols@),
            requirements: symbol_views(self.requirements@),
            tasks: symbol_views(self.tasks@),
            concepts: symbol_views(self.concepts@),
            behaviors: symbol_views(self.behaviors@),
            invariants: symbol_views(self.invariants@),
        }
    }
}

proof fn lemma_views_insert(m: Map<Seq<char>, Symbol>, s: Symbol)
    ensures
        symbol_views(m.insert(s.name@, s)) == symbol_views(m).insert(s@.name, s@),
{
    assert(symbol_views(m.insert(s.name@, s)) =~= symbol_views(m).insert(s@.name, s@));
}

proof fn lemma_views_empty()
    ensures
        symbol_views(Map::<Seq<char>, Symbol>::empty()) == Map::<Seq<char>, SymbolView>::empty(),
{
    assert(symbol_views(Map::<Seq<char>, Symbol>::empty()) =~= Map::<Seq<char>, SymbolView>::empty());
}

impl SymbolTable {
    /// Create a new empty symbol table.
    pub fn new() -> (t: Self)
        ensures
            t@ == empty_model(),
            kind_maps_consistent(t@),
    {
        proof {
            lemma_views_empty();
        }
        SymbolTable {
            symbols: StrMap::new(),
            requirements: StrMap::new(),
            tasks: StrMap::new(),
            concepts: StrMap::new(),
            behaviors: StrMap::new(),
            invariants: StrMap::new(),
        }
    }

    /// Add a symbol to the table.
    pub fn add(&mut self, symbol: Symbol)
        ensures
            final(self)@ == model_add(old(self)@, symbol@),
            kind_maps_consistent(old(self)@) ==> kind_maps_consistent(final(self)@),
    {
        let name = symbol.name.clone();
        proof {
            lemma_views_insert(self.symbols@, symbol);
            lemma_views_insert(self.requirements@, symbol);
            lemma_views_insert(self.tasks@, symbol);
            lemma_views_insert(self.concepts@, symbol);
            lemma_views_insert(self.behaviors@, symbol);
            lemma_views_insert(self.invariants@, symbol);
        }
        match symbol.kind {
            SymbolKind::Requirement => {
                self.requirements.insert(name.clone(), symbol.clone());
            },
            SymbolKind::Task => {
                self.tasks.insert(name.clone(), symbol.clone());
            },
            SymbolKind::Concept => {
                self.concepts.insert(name.clone(), symbol.clone());
            },
            SymbolKind::Behavior => {
                self.behaviors.insert(name.clone(), symbol.clone());
            },
            SymbolKind::Invariant => {
                self.invariants.insert(name.clone(), symbol.clone());
            },
            SymbolKind::Field => {},
        }
        self.symbols.insert(name, symbol);
    }

    /// Look up a symbol by name.
    pub fn get(&self, name: &str) -> (r: Option<&Symbol>)
        ensures
            r is Some == self@.symbols.contains_key(name@),
            r matches Some(s) ==> s@ == self@.symbols[name@],
    {
        self.symbols.get(name)
    }

    /// Look up a requirement by ID.
    pub fn get_requirement(&self, id: &str) -> (r: Option<&Symbol>)
        ensures
            r is Some == self@.requirements.contains_key(id@),
            r matches Some(s) ==> s@ == self@.requirements[id@],
    {
        self.requirements.get(id)
    }

    /// Look up a task by ID.
    pub fn get_task(&self, id: &str) -> (r: Option<&Symbol>)
        ensures
            r is Some == self@.tasks.contains_key(id@),
            r matches Some(s) ==> s@ == self@.tasks[id@],
    {
        self.tasks.get(id)
    }

    /// Look up a concept by name.
    pub fn get_concept(&self, name: &str) -> (r: Option<&Symbol>)
        ensures
            r is Some == self@.concepts.contains_key(name@),
            r matches Some(s) ==> s@ == self@.concepts[name@],
    {
        self.concepts.get(name)
    }

    /// Look up a behavior by name.
    pub fn get_behavior(&self, name: &str) -> (r: Option<&Symbol>)
        ensures
            r is Some == self@.behaviors.contains_key(name@),
            r matches Some(s) ==> s@ == self@.behaviors[name@],
    {
        self.behaviors.get(name)
    }
}

// ============================================================================
// Building the table from a file
// ============================================================================

/// The symbol of a requirement: its ID, with its trimmed title.
pub open spec fn requirement_symbol(r: Requirement) -> SymbolView {
    SymbolView {
        name: r.id.value@,
        kind: SymbolKind::Requirement,
        title: Some(trim(r.title.text@)),
        status: None,
        span: r.span,
    }
}

/// The trimmed value of the first `status:` field, if any.
pub open spec fn status_of(fields: Seq<TaskField>) -> Option<Seq<char>>
    decreases fields.len(),
{
    if fields.len() == 0 {
        None
    } else if fields[0].kind == TaskFieldKind::Status {
        Some(trim(fields[0].value.text@))
    } else {
        status_of(fields.drop_first())
    }
}

/// The symbol of a task: its ID, with its trimmed title and status.
pub open spec fn task_symbol(t: Task) -> SymbolView {
    SymbolView {
        name: t.id.value@,
        kind: SymbolKind::Task,
        title: Some(trim(t.title.text@)),
        status: status_of(t.fields@),
        span: t.span,
    }
}

/// A symbol with no title or status.
pub open spec fn plain_symbol(name: Seq<char>, kind: SymbolKind, span: Span) -> SymbolView {
    SymbolView { name, kind, title: None, status: None, span }
}

/// The name of a field symbol: `Concept.field`.
pub open spec fn field_symbol_name(concept: Seq<char>, field: Seq<char>) -> Seq<char> {
    concept + seq!['.'] + field
}

/// `t` with the symbols of `fields` (of the concept named `concept`) added in order.
pub open spec fn fields_added(t: TableModel, concept: Seq<char>, fields: Seq<Field>) -> TableModel
    decreases fields.len(),
{
    if fields.len() == 0 {
        t
    } else {
        let f = fields.last();
        model_add(
            fields_added(t, concept, fields.drop_last()),
            plain_symbol(field_symbol_name(concept, f.name.value@), SymbolKind::Field, f.span),
        )
    }
}

/// `t` with the symbols that one section content defines added.
pub open spec fn content_added(t: TableModel, c: SectionContent) -> TableModel {
    match c {
        SectionContent::Requirement(r) => model_add(t, requirement_symbol(r)),
        SectionContent::Task(task) => model_add(t, task_symbol(task)),
        SectionContent::Concept(concept) => fields_added(
            model_add(t, plain_symbol(concept.name.value@, SymbolKind::Concept, concept.span)),
            concept.name.value@,
            concept.fields@,
        ),
        SectionContent::Behavior(b) => model_add(
            t,
            plain_symbol(b.name.value@, SymbolKind::Behavior, b.span),
        ),
        SectionContent::Invariant(i) => model_add(
            t,
            plain_symbol(i.name.value@, SymbolKind::Invariant, i.span),
        ),
        _ => t,
    }
}

/// `t` with the symbols of `cs` added in order.
pub open spec fn contents_added(t: TableModel, cs: Seq<SectionContent>) -> TableModel
    decreases cs.len(),
{
    if cs.len() == 0 {
        t
    } else {
        content_added(contents_added(t, cs.drop_last()), cs.last())
    }
}

/// The symbol table of a file.
pub open spec fn symbols_of(f: SourceFile) -> TableModel {
    contents_added(empty_model(), all_contents(f))
}

fn add_requirement(req: &Requirement, table: &mut SymbolTable)
    ensures
        final(table)@ == model_add(old(table)@, requirement_symbol(*req)),
{
    table.add(
        Symbol {
            name: req.id.value.clone(),
            kind: SymbolKind::Requirement,
            title: Some(trimmed(req.title.text.as_str())),
            status: None,
            span: req.span,
        },
    );
}

fn task_status(fields: &Vec<TaskField>) -> (r: Option<String>)
    ensures
        opt_view(r) == status_of(fields@),
{
    let mut i: usize = 0;
    assert(fields@.skip(0) =~= fields@);
    while i < fields.len()
        invariant
            i <= fields@.len(),
            status_of(fields@) == status_of(fields@.skip(i as int)),
        decreases fields.len() - i,
    {
        assert(fields@.skip(i as int).drop_first() =~= fields@.skip(i + 1));
        if fields[i].kind == TaskFieldKind::Status {
            return Some(trimmed(fields[i].value.text.as_str()));
        }
        i += 1;
    }
    None
}

fn add_task(task: &Task, table: &mut SymbolTable)
    ensures
        final(table)@ == model_add(old(table)@, task_symbol(*task)),
{
    let status = task_status(&task.fields);
    table.add(
        Symbol {
            name: task.id.value.clone(),
            kind: SymbolKind::Task,
            title: Some(trimmed(task.title.text.as_str())),
            status,
            span: task.span,
        },
    );
}

/// `Concept.field`.
fn field_name(concept: &str, field: &str) -> (r: String)
    ensures
        r@ == field_symbol_name(concept@, field@),
{
    let mut r = String::new();
    push_str(&mut r, concept);
    push_char(&mut r, '.');
    push_str(&mut r, field);
    r
}

fn add_concept(concept: &Concept, table: &mut SymbolTable)
    ensures
        final(table)@ == content_added(old(table)@, SectionContent::Concept(*concept)),
{
    table.add(
        Symbol {
            name: concept.name.value.clone(),
            kind: SymbolKind::Concept,
            title: None,
            status: None,
            span: concept.span,
        },
    );
    let ghost base = table@;
    let mut i: usize = 0;
    while i < concept.fields.len()
        invariant
            i <= concept.fields@.len(),
            table@ == fields_added(base, concept.name.value@, concept.fields@.take(i as int)),
        decreases concept.fields.len() - i,
    {
        let field = &concept.fields[i];
        table.add(
            Symbol {
                name: field_name(concept.name.value.as_str(), field.name.value.as_str()),
                kind: SymbolKind::Field,
                title: None,
                status: None,
                span: field.span,
            },
        );
        assert(concept.fields@.take(i + 1).drop_last() =~= concept.fields@.take(i as int));
        i += 1;
    }
    assert(concept.fields@.take(i as int) =~= concept.fields@);
}

fn add_behavior(behavior: &Behavior, table: &mut SymbolTable)
    ensures
        final(table)@ == model_add(
            old(table)@,
            plain_symbol(behavior.name.value@, SymbolKind::Behavior, behavior.span),
        ),
{
    table.add(
        Symbol {
            name: behavior.name.value.clone(),
            kind: SymbolKind::Behavior,
            title: None,
            status: None,
            span: behavior.span,
        },
    );
}

fn add_invariant(inv_def: &Invariant, table: &mut SymbolTable)
    ensures
        final(table)@ == model_add(
            old(table)@,
            plain_symbol(inv_def.name.value@, SymbolKind::Invariant, inv_def.span),
        ),
{
    table.add(
        Symbol {
            name: inv_def.name.value.clone(),
            kind: SymbolKind::Invariant,
            title: None,
            status: None,
            span: inv_def.span,
        },
    );
}

/// Collect symbols from an AST.
fn collect_symbols(ast: &SourceFile, table: &mut SymbolTable)
    ensures
        final(table)@ == contents_added(old(table)@, all_contents(*ast)),
{
    let contents = contents_of(ast);
    let ghost cs = contents@.map_values(|c: &SectionContent| *c);
    let ghost start = table@;
    let mut i: usize = 0;
    while i < contents.len()
        invariant
            i <= contents@.len(),
            cs == contents@.map_values(|c: &SectionContent| *c),
            table@ == contents_added(start, cs.take(i as int)),
        decreases contents.len() - i,
    {
        assert(cs.take(i + 1).drop_last() =~= cs.take(i as int));
        assert(cs.take(i + 1).last() == *contents@[i as int]);
        match contents[i] {
            SectionContent::Requirement(req) => add_requirement(req, table),
            SectionContent::Task(task) => add_task(task, table),
            SectionContent::Concept(concept) => add_concept(concept, table),
            SectionContent::Behavior(behavior) => add_behavior(behavior, table),
            SectionContent::Invariant(inv_def) => add_invariant(inv_def, table),
            _ => {},
        }
        i += 1;
    }
    assert(cs.take(i as int) =~= cs);
}

/// Build a symbol table from a source file.
pub fn symbols(ast: &SourceFile) -> (t: SymbolTable)
    ensures
        t@ == symbols_of(*ast),
{
    let mut table = SymbolTable::new();
    collect_symbols(ast, &mut table);
    table
}

// ============================================================================
// Laws
// ============================================================================

/// Every symbol in a kind-specific map is also in the map of all symbols, and
/// carries that kind.
pub open spec fn kind_maps_consistent(t: TableModel) -> bool {
    &&& forall|k: Seq<char>| #[trigger] t.requirements.contains_key(k) ==> t.symbols.contains_key(k)
        && t.requirements[k].kind == SymbolKind::Requirement
    &&& forall|k: Seq<char>| #[trigger] t.tasks.contains_key(k) ==> t.symbols.contains_key(k)
        && t.tasks[k].kind == SymbolKind::Task
    &&& forall|k: Seq<char>| #[trigger] t.concepts.contains_key(k) ==> t.symbols.contains_key(k)
        && t.concepts[k].kind == SymbolKind::Concept
    &&& forall|k: Seq<char>| #[trigger] t.behaviors.contains_key(k) ==> t.symbols.contains_key(k)
        && t.behaviors[k].kind == SymbolKind::Behavior
    &&& forall|k: Seq<char>| #[trigger] t.invariants.contains_key(k) ==> t.symbols.contains_key(k)
        && t.invariants[k].kind == SymbolKind::Invariant
}

/// Every symbol has a span that starts no later than it ends.
pub open spec fn spans_ordered(t: TableModel) -> bool {
    forall|k: Seq<char>| #[trigger] t.symbols.contains_key(k) ==> t.symbols[k].span.start
        <= t.symbols[k].span.end
}

/// A symbol added to a table is found under its name, in the map of all
/// symbols and in the map of its kind; every other name keeps what it had.
pub proof fn added_symbol_is_found(t: TableModel, s: SymbolView, other: Seq<char>)
    requires
        other != s.name,
    ensures
        model_add(t, s).symbols.contains_key(s.name),
        model_add(t, s).symbols[s.name] == s,
        s.kind == SymbolKind::Requirement ==> model_add(t, s).requirements[s.name] == s,
        s.kind == SymbolKind::Task ==> model_add(t, s).tasks[s.name] == s,
        s.kind == SymbolKind::Concept ==> model_add(t, s).concepts[s.name] == s,
        s.kind == SymbolKind::Behavior ==> model_add(t, s).behaviors[s.name] == s,
        s.kind == SymbolKind::Invariant ==> model_add(t, s).invariants[s.name] == s,
        model_add(t, s).symbols.contains_key(other) == t.symbols.contains_key(other),
        t.symbols.contains_key(other) ==> model_add(t, s).symbols[other] == t.symbols[other],
{
}

/// Adding a symbol keeps the kind maps inside the map of all symbols.
pub proof fn add_keeps_kind_maps_consistent(t: TableModel, s: SymbolView)
    requires
        kind_maps_consistent(t),
    ensures
        kind_maps_consistent(model_add(t, s)),
{
}

proof fn lemma_fields_added_consistent(t: TableModel, c: Seq<char>, fields: Seq<Field>)
    requires
        kind_maps_consistent(t),
    ensures
        kind_maps_consistent(fields_added(t, c, fields)),
    decreases fields.len(),
{
    if fields.len() > 0 {
        lemma_fields_added_consistent(t, c, fields.drop_last());
    }
}

proof fn lemma_contents_added_consistent(t: TableModel, cs: Seq<SectionContent>)
    requires
        kind_maps_consistent(t),
    ensures
        kind_maps_consistent(contents_added(t, cs)),
    decreases cs.len(),
{
    if cs.len() > 0 {
        lemma_contents_added_consistent(t, cs.drop_last());
        let u = contents_added(t, cs.drop_last());
        match cs.last() {
            SectionContent::Concept(concept) => {
                lemma_fields_added_consistent(
                    model_add(u, plain_symbol(concept.name.value@, SymbolKind::Concept, concept.span)),
                    concept.name.value@,
                    concept.fields@,
                );
            },
            _ => {},
        }
    }
}

/// In the symbol table of any file, every requirement, task, concept, behavior
/// and invariant is also found in the map of all symbols, under its own kind.
pub proof fn symbol_table_kind_maps_consistent(f: SourceFile)
    ensures
        kind_maps_consistent(symbols_of(f)),
{
    lemma_contents_added_consistent(empty_model(), all_contents(f));
}

/// Every span of a section content is ordered (start no later than end), those
/// of concept fields included.
pub open spec fn content_spans_ordered(c: SectionContent) -> bool {
    match c {
        SectionContent::Requirement(r) => r.span.start <= r.span.end,
        SectionContent::Task(t) => t.span.start <= t.span.end,
        SectionContent::Concept(concept) => concept.span.start <= concept.span.end && forall|i: int|
            0 <= i < concept.fields@.len() ==> #[trigger] concept.fields@[i].span.start
                <= concept.fields@[i].span.end,
        SectionContent::Behavior(b) => b.span.start <= b.span.end,
        SectionContent::Invariant(i) => i.span.start <= i.span.end,
        _ => true,
    }
}

proof fn lemma_fields_added_spans(t: TableModel, c: Seq<char>, fields: Seq<Field>)
    requires
        spans_ordered(t),
        forall|i: int| 0 <= i < fields.len() ==> #[trigger] fields[i].span.start <= fields[i].span.end,
    ensures
        spans_ordered(fields_added(t, c, fields)),
    decreases fields.len(),
{
    if fields.len() > 0 {
        lemma_fields_added_spans(t, c, fields.drop_last());
    }
}

proof fn lemma_contents_added_spans(t: TableModel, cs: Seq<SectionContent>)
    requires
        spans_ordered(t),
        forall|i: int| 0 <= i < cs.len() ==> content_spans_ordered(#[trigger] cs[i]),
    ensures
        spans_ordered(contents_added(t, cs)),
    decreases cs.len(),
{
    if cs.len() > 0 {
        lemma_contents_added_spans(t, cs.drop_last());
        let u = contents_added(t, cs.drop_last());
        assert(content_spans_ordered(cs[cs.len() - 1]));
        match cs.last() {
            SectionContent::Concept(concept) => {
                lemma_fields_added_spans(
                    model_add(u, plain_symbol(concept.name.value@, SymbolKind::Concept, concept.span)),
                    concept.name.value@,
                    concept.fields@,
                );
            },
            _ => {},
        }
    }
}

/// When every definition in a file has an ordered span, so does every symbol of
/// its table.
pub proof fn symbol_spans_ordered(f: SourceFile)
    requires
        forall|i: int| 0 <= i < all_contents(f).len() ==> content_spans_ordered(
            #[trigger] all_contents(f)[i],
        ),
    ensures
        spans_ordered(symbols_of(f)),
{
    lemma_contents_added_spans(empty_model(), all_contents(f));
}

/// Some concept of `cs` named `c` declares a field named `fl`.
pub open spec fn declares_field(cs: Seq<SectionContent>, c: Seq<char>, fl: Seq<char>) -> bool {
    exists|i: int, m: int|
        #![trigger cs[i], field_of(cs[i], m)]
        0 <= i < cs.len() && field_of(cs[i], m) == Some((c, fl))
}

/// The concept name and the name of field `m` when `c` is a concept with at
/// least `m + 1` fields.
pub open spec fn field_of(c: SectionContent, m: int) -> Option<(Seq<char>, Seq<char>)> {
    match c {
        SectionContent::Concept(k) => if 0 <= m < k.fields@.len() {
            Some((k.name.value@, k.fields@[m].name.value@))
        } else {
            None
        },
        _ => None,
    }
}

proof fn lemma_fields_added_field_keys(t: TableModel, concept: Seq<char>, fields: Seq<Field>)
    ensures
        forall|k: Seq<char>|
            #[trigger] fields_added(t, concept, fields).symbols.contains_key(k) && fields_added(t, concept, fields).symbols[k].kind
                == SymbolKind::Field ==> (t.symbols.contains_key(k) && t.symbols[k].kind == SymbolKind::Field)
                || exists|m: int| 0 <= m < fields.len() && k == field_symbol_name(concept, #[trigger] fields[m].name.value@),
    decreases fields.len(),
{
    if fields.len() > 0 {
        let rest = fields.drop_last();
        lemma_fields_added_field_keys(t, concept, rest);
        let h = fields_added(t, concept, fields);
        assert forall|k: Seq<char>|
            #[trigger] h.symbols.contains_key(k) && h.symbols[k].kind == SymbolKind::Field implies (t.symbols.contains_key(k)
                && t.symbols[k].kind == SymbolKind::Field) || exists|m: int|
                0 <= m < fields.len() && k == field_symbol_name(concept, #[trigger] fields[m].name.value@) by {
            let last = field_symbol_name(concept, fields.last().name.value@);
            if k == last {
                assert(fields[fields.len() - 1].name.value@ == fields.last().name.value@);
            } else {
                let p = fields_added(t, concept, rest);
                assert(p.symbols.contains_key(k) && p.symbols[k].kind == SymbolKind::Field);
                if !(t.symbols.contains_key(k) && t.symbols[k].kind == SymbolKind::Field) {
                    let m = choose|m: int| 0 <= m < rest.len() && k == field_symbol_name(concept, #[trigger] rest[m].name.value@);
                    assert(rest[m] == fields[m]);
                }
            }
        }
    }
}

proof fn lemma_contents_added_field_keys(cs: Seq<SectionContent>)
    ensures
        forall|k: Seq<char>|
            #[trigger] contents_added(empty_model(), cs).symbols.contains_key(k) && contents_added(empty_model(), cs).symbols[k].kind
                == SymbolKind::Field ==> exists|c: Seq<char>, fl: Seq<char>|
                #![trigger field_symbol_name(c, fl)]
                declares_field(cs, c, fl) && k == field_symbol_name(c, fl),
    decreases cs.len(),
{
    if cs.len() > 0 {
        let rest = cs.drop_last();
        lemma_contents_added_field_keys(rest);
        let p = contents_added(empty_model(), rest);
        let h = contents_added(empty_model(), cs);
        assert forall|c: Seq<char>, fl: Seq<char>| declares_field(rest, c, fl) implies declares_field(cs, c, fl) by {
            let (i, m) = choose|i: int, m: int| 0 <= i < rest.len() && field_of(rest[i], m) == Some((c, fl));
            assert(cs[i] == rest[i]);
        }
        assert forall|k: Seq<char>|
            #[trigger] h.symbols.contains_key(k) && h.symbols[k].kind == SymbolKind::Field implies exists|
                c: Seq<char>,
                fl: Seq<char>,
            |
                #![trigger field_symbol_name(c, fl)]
                declares_field(cs, c, fl) && k == field_symbol_name(c, fl) by {
            let last = cs.last();
            match last {
                SectionContent::Concept(concept) => {
                    let q = model_add(p, plain_symbol(concept.name.value@, SymbolKind::Concept, concept.span));
                    lemma_fields_added_field_keys(q, concept.name.value@, concept.fields@);
                    if q.symbols.contains_key(k) && q.symbols[k].kind == SymbolKind::Field {
                        assert(k != concept.name.value@);
                        assert(p.symbols.contains_key(k) && p.symbols[k].kind == SymbolKind::Field);
                        let (c, fl) = choose|c: Seq<char>, fl: Seq<char>|
                            #![trigger field_symbol_name(c, fl)]
                            declares_field(rest, c, fl) && k == field_symbol_name(c, fl);
                        assert(declares_field(cs, c, fl));
                    } else {
                        let m = choose|m: int|
                            0 <= m < concept.fields@.len() && k == field_symbol_name(
                                concept.name.value@,
                                #[trigger] concept.fields@[m].name.value@,
                            );
                        let i = cs.len() - 1;
                        assert(field_of(cs[i], m) == Some((concept.name.value@, concept.fields@[m].name.value@)));
                        assert(declares_field(cs, concept.name.value@, concept.fields@[m].name.value@));
                    }
                },
                _ => {
                    assert(p.symbols.contains_key(k) && p.symbols[k].kind == SymbolKind::Field);
                    let (c, fl) = choose|c: Seq<char>, fl: Seq<char>|
                        #![trigger field_symbol_name(c, fl)]
                        declares_field(rest, c, fl) && k == field_symbol_name(c, fl);
                    assert(declares_field(cs, c, fl));
                },
            }
        }
    }
}

/// Every field symbol in the table of a file is named `C.f` for a concept
/// `C` of the file that declares a field `f`.
pub proof fn field_symbols_are_declared_fields(f: SourceFile)
    ensures
        forall|k: Seq<char>|
            #[trigger] symbols_of(f).symbols.contains_key(k) && symbols_of(f).symbols[k].kind == SymbolKind::Field
                ==> exists|c: Seq<char>, fl: Seq<char>|
                #![trigger field_symbol_name(c, fl)]
                declares_field(all_contents(f), c, fl) && k == field_symbol_name(c, fl),
{
    lemma_contents_added_field_keys(all_contents(f));
}

/// The name of the symbol that content `c` defines itself (fields aside).
pub open spec fn own_symbol_name(c: SectionContent) -> Option<Seq<char>> {
    match c {
        SectionContent::Requirement(r) => Some(r.id.value@),
        SectionContent::Task(t) => Some(t.id.value@),
        SectionContent::Concept(k) => Some(k.name.value@),
        SectionContent::Behavior(b) => Some(b.name.value@),
        SectionContent::Invariant(i) => Some(i.name.value@),
        _ => None,
    }
}

/// No symbol that `cs` defines has a `.` in its name, and no field either.
pub open spec fn symbol_names_dotless(cs: Seq<SectionContent>) -> bool {
    &&& forall|i: int|
        0 <= i < cs.len() && #[trigger] own_symbol_name(cs[i]) is Some ==> !own_symbol_name(cs[i]).unwrap().contains(
            '.',
        )
    &&& forall|i: int, m: int|
        #![trigger cs[i], field_of(cs[i], m)]
        0 <= i < cs.len() && field_of(cs[i], m) is Some ==> !field_of(cs[i], m).unwrap().1.contains('.')
}

/// A key with a `.` in it is not the name of a symbol defined without one.
proof fn lemma_dotted_key(k: Seq<char>, c: Seq<char>, fl: Seq<char>)
    requires
        k == field_symbol_name(c, fl),
    ensures
        k.contains('.'),
{
    assert(k[c.len() as int] == '.');
}

proof fn lemma_fields_added_keeps_field(t: TableModel, concept: Seq<char>, fields: Seq<Field>, k: Seq<char>)
    requires
        t.symbols.contains_key(k) && t.symbols[k].kind == SymbolKind::Field,
    ensures
        fields_added(t, concept, fields).symbols.contains_key(k) && fields_added(t, concept, fields).symbols[k].kind
            == SymbolKind::Field,
    decreases fields.len(),
{
    if fields.len() > 0 {
        lemma_fields_added_keeps_field(t, concept, fields.drop_last(), k);
    }
}

proof fn lemma_fields_added_has_field(t: TableModel, concept: Seq<char>, fields: Seq<Field>, m: int)
    requires
        0 <= m < fields.len(),
    ensures
        fields_added(t, concept, fields).symbols.contains_key(field_symbol_name(concept, fields[m].name.value@))
            && fields_added(t, concept, fields).symbols[field_symbol_name(concept, fields[m].name.value@)].kind
            == SymbolKind::Field,
    decreases fields.len(),
{
    let rest = fields.drop_last();
    if m < rest.len() {
        lemma_fields_added_has_field(t, concept, rest, m);
        assert(rest[m] == fields[m]);
        let h = fields_added(t, concept, rest);
        let k = field_symbol_name(concept, fields[m].name.value@);
        assert(h.symbols.contains_key(k) && h.symbols[k].kind == SymbolKind::Field);
    }
}

proof fn lemma_declared_field_kept(cs: Seq<SectionContent>, c: Seq<char>, fl: Seq<char>)
    requires
        symbol_names_dotless(cs),
        declares_field(cs, c, fl),
    ensures
        contents_added(empty_model(), cs).symbols.contains_key(field_symbol_name(c, fl))
            && contents_added(empty_model(), cs).symbols[field_symbol_name(c, fl)].kind == SymbolKind::Field,
    decreases cs.len(),
{
    let rest = cs.drop_last();
    let k = field_symbol_name(c, fl);
    lemma_dotted_key(k, c, fl);
    let p = contents_added(empty_model(), rest);
    let (i, m) = choose|i: int, m: int| 0 <= i < cs.len() && field_of(cs[i], m) == Some((c, fl));
    let last = cs.last();
    if i < rest.len() {
        assert(rest[i] == cs[i]);
        assert(symbol_names_dotless(rest)) by {
            assert forall|a: int| 0 <= a < rest.len() && #[trigger] own_symbol_name(rest[a]) is Some implies !own_symbol_name(
                rest[a],
            ).unwrap().contains('.') by {
                assert(rest[a] == cs[a]);
            }
            assert forall|a: int, b: int|
                #![trigger rest[a], field_of(rest[a], b)]
                0 <= a < rest.len() && field_of(rest[a], b) is Some implies !field_of(rest[a], b).unwrap().1.contains('.') by {
                assert(rest[a] == cs[a]);
            }
        }
        assert(declares_field(rest, c, fl));
        lemma_declared_field_kept(rest, c, fl);
        let j = cs.len() - 1;
        assert(cs[j] == last);
        if own_symbol_name(last) is Some {
            assert(own_symbol_name(cs[j]) is Some);
            assert(own_symbol_name(last).unwrap() != k);
        }
        match last {
            SectionContent::Concept(concept) => {
                let q = model_add(p, plain_symbol(concept.name.value@, SymbolKind::Concept, concept.span));
                lemma_fields_added_keeps_field(q, concept.name.value@, concept.fields@, k);
            },
            _ => {},
        }
    } else {
        assert(cs[i] == last);
        match last {
            SectionContent::Concept(concept) => {
                let q = model_add(p, plain_symbol(concept.name.value@, SymbolKind::Concept, concept.span));
                lemma_fields_added_has_field(q, concept.name.value@, concept.fields@, m);
            },
            _ => {},
        }
    }
}

/// Every field declared by a concept of a file has its field symbol, keyed
/// `Concept.field`, in the table of the file (where no name holds a `.`).
pub proof fn declared_fields_have_symbols(f: SourceFile, c: Seq<char>, fl: Seq<char>)
    requires
        symbol_names_dotless(all_contents(f)),
        declares_field(all_contents(f), c, fl),
    ensures
        symbols_of(f).symbols.contains_key(field_symbol_name(c, fl)),
        symbols_of(f).symbols[field_symbol_name(c, fl)].kind == SymbolKind::Field,
{
    lemma_declared_field_kept(all_contents(f), c, fl);
}

} // verus!
