//! Language-server features for Topos specification files: hover,
//! go-to-definition, find references, completions and hole-filling code
//! actions, computed from a parsed document.
use vstd::prelude::*;

use crate::foreign::{char_len, ForeignSymbolKind, ForeignSymbolView};
use crate::holes::{HoleCollection, HoleView, HoleWithContext, ParentView};
use crate::polyglot::{hover_text, lookup, UnifiedSymbol, UnifiedSymbolTable, UnifiedView};
use crate::resolve::{resolved_views, ReferenceKind, ResolvedReferences, ResolvedView};
use crate::span::Span;
use crate::strmap::StrMap;
use crate::symbols::{Symbol, SymbolTable, SymbolView};
use crate::text::{contains, join, joined, push_str, seq_contains, views};
use crate::traceability::{set_items, TraceabilityGraph};

verus! {

// ============================================================================
// Positions and ranges
// ============================================================================

/// A position in a document: a line and a character in it, both 0-indexed.
#[derive(Debug, Clone, Copy, PartialEq, Eq, Structural)]
pub struct Position {
    pub line: u32,
    pub character: u32,
}

/// A range of a document, from `start` to `end`.
#[derive(Debug, Clone, Copy, PartialEq, Eq, Structural)]
pub struct Range {
    pub start: Position,
    pub end: Position,
}

/// The range a span covers.
pub open spec fn range_of(s: Span) -> Range {
    Range {
        start: Position { line: s.start_line, character: s.start_col },
        end: Position { line: s.end_line, character: s.end_col },
    }
}

/// Convert a span to a range.
pub fn span_to_range(span: &Span) -> (r: Range)
    ensures
        r == range_of(*span),
{
    Range {
        start: Position { line: span.start_line, character: span.start_col },
        end: Position { line: span.end_line, character: span.end_col },
    }
}

/// A span holds a byte offset: from its start up to, not including, its end.
pub open spec fn holds(s: Span, offset: usize) -> bool {
    s.start <= offset && offset < s.end
}

/// Check if a span contains an offset.
pub fn span_contains(span: &Span, offset: usize) -> (b: bool)
    ensures
        b == holds(*span, offset),
{
    offset >= span.start as usize && offset < span.end as usize
}

/// `a` ends before `b` starts.
pub open spec fn ends_before(a: Range, b: Range) -> bool {
    a.end.line < b.start.line || (a.end.line == b.start.line && a.end.character < b.start.character)
}

/// Check if two ranges overlap: neither ends before the other starts.
pub fn ranges_overlap(a: &Range, b: &Range) -> (r: bool)
    ensures
        r == !(ends_before(*a, *b) || ends_before(*b, *a)),
{
    !(a.end.line < b.start.line || (a.end.line == b.start.line && a.end.character
        < b.start.character) || b.end.line < a.start.line || (b.end.line == a.start.line
        && b.end.character < a.start.character))
}

/// The byte offset of a position in `s`: walk to the start of line `line`,
/// then over up to `col` characters of it, stopping at its end.
pub open spec fn position_offset(s: Seq<char>, line: int, col: int) -> int
    decreases s.len(),
{
    if s.len() == 0 {
        0
    } else if line == 0 {
        if col == 0 || s[0] == '\n' {
            0
        } else {
            char_len(s[0]) + position_offset(s.drop_first(), 0, col - 1)
        }
    } else {
        char_len(s[0]) + position_offset(
            s.drop_first(),
            if s[0] == '\n' {
                line - 1
            } else {
                line
            },
            col,
        )
    }
}

/// The walk never passes the end of the text.
proof fn lemma_position_bounded(s: Seq<char>, line: int, col: int)
    ensures
        0 <= position_offset(s, line, col) <= crate::foreign::utf8_len(s),
    decreases s.len(),
{
    if s.len() > 0 {
        lemma_position_bounded(s.drop_first(), 0, col - 1);
        lemma_position_bounded(s.drop_first(), if s[0] == '\n' { line - 1 } else { line }, col);
        lemma_utf8_len_front(s);
    }
}

/// The bytes of a text are those of its first character and of the rest.
proof fn lemma_utf8_len_front(s: Seq<char>)
    requires
        s.len() > 0,
    ensures
        crate::foreign::utf8_len(s) == char_len(s[0]) + crate::foreign::utf8_len(s.drop_first()),
    decreases s.len(),
{
    if s.len() > 1 {
        lemma_utf8_len_front(s.drop_last());
        assert(s.drop_last().drop_first() =~= s.drop_first().drop_last());
        assert(s.drop_last()[0] == s[0]);
        assert(s.drop_first().last() == s.last());
        assert(crate::foreign::utf8_len(s) == crate::foreign::utf8_len(s.drop_last()) + char_len(
            s.last(),
        ));
        assert(crate::foreign::utf8_len(s.drop_first()) == crate::foreign::utf8_len(
            s.drop_first().drop_last(),
        ) + char_len(s.drop_first().last()));
    } else {
        assert(s.drop_first().len() == 0);
        assert(s.drop_last().len() == 0);
        assert(s.last() == s[0]);
        assert(crate::foreign::utf8_len(s.drop_last()) == 0);
        assert(crate::foreign::utf8_len(s.drop_first()) == 0);
    }
}

/// Convert a position to a byte offset in `text`.
pub fn position_to_offset(text: &str, position: Position) -> (offset: usize)
    requires
        crate::foreign::utf8_len(text@) <= usize::MAX,
    ensures
        offset == position_offset(text@, position.line as int, position.character as int),
{
    let v = crate::text::chars_of(text);
    let ghost s = v@;
    let mut offset: usize = 0;
    let mut line: u32 = position.line;
    let mut col: u32 = position.character;
    let mut i: usize = 0;
    proof {
        lemma_position_bounded(s, line as int, col as int);
        assert(s.skip(0) =~= s);
    }
    while i < v.len()
        invariant
            i <= s.len(),
            s == v@,
            s == text@,
            crate::foreign::utf8_len(s) <= usize::MAX,
            offset + position_offset(s.skip(i as int), line as int, col as int) == position_offset(
                s,
                position.line as int,
                position.character as int,
            ),
            position_offset(s, position.line as int, position.character as int)
                <= crate::foreign::utf8_len(s),
        decreases v.len() - i,
    {
        let c = v[i];
        let ghost rest = s.skip(i as int);
        assert(rest[0] == c);
        assert(rest.drop_first() =~= s.skip(i + 1));
        proof {
            lemma_position_bounded(s.skip(i + 1), 0, col - 1);
            lemma_position_bounded(s.skip(i + 1), line as int, col as int);
            if c == '\n' && line > 0 {
                lemma_position_bounded(s.skip(i + 1), line - 1, col as int);
            }
        }
        if line == 0 {
            if col == 0 || c == '\n' {
                return offset;
            }
            offset = offset + crate::foreign::char_byte_len(c);
            col = col - 1;
        } else {
            offset = offset + crate::foreign::char_byte_len(c);
            if c == '\n' {
                line = line - 1;
            }
        }
        i += 1;
    }
    offset
}

// ============================================================================
// Completions
// ============================================================================

/// Kinds of completion items.
#[derive(Debug, Clone, Copy, PartialEq, Eq, Structural)]
pub enum CompletionKind {
    Constant,
    Event,
    Class,
    Function,
    Struct,
    Interface,
    TypeParameter,
    Enum,
    Module,
    Method,
}

/// A completion item: its label, kind, detail and documentation.
#[derive(Debug)]
pub struct CompletionEntry {
    pub label: String,
    pub kind: CompletionKind,
    pub detail: String,
    pub documentation: Option<String>,
}

/// What a completion item says, its texts taken by their views.
pub struct EntryView {
    pub label: Seq<char>,
    pub kind: CompletionKind,
    pub detail: Seq<char>,
    pub documentation: Option<Seq<char>>,
}

impl View for CompletionEntry {
    type V = EntryView;

    open spec fn view(&self) -> EntryView {
        EntryView {
            label: self.label@,
            kind: self.kind,
            detail: self.detail@,
            documentation: match self.documentation {
                Some(d) => Some(d@),
                None => None,
            },
        }
    }
}

/// The views of a sequence of completion items.
pub open spec fn entry_views(s: Seq<CompletionEntry>) -> Seq<EntryView> {
    s.map_values(|e: CompletionEntry| e@)
}

/// The groups of Topos symbols offered as completions.
#[derive(Debug, Clone, Copy, PartialEq, Eq, Structural)]
pub enum EntryGroup {
    Requirements,
    Tasks,
    Concepts,
    Behaviors,
}

/// The completion item of a Topos symbol named `k` of group `g`: a task
/// lists the requirements it is linked to, a behavior those it implements.
pub open spec fn group_entry(g: EntryGroup, k: Seq<char>, trace: TraceabilityGraph) -> EntryView {
    match g {
        EntryGroup::Requirements => EntryView {
            label: k,
            kind: CompletionKind::Constant,
            detail: "Requirement"@,
            documentation: None,
        },
        EntryGroup::Tasks => {
            let reqs = set_items(trace.task_to_reqs, k);
            EntryView {
                label: k,
                kind: CompletionKind::Event,
                detail: if reqs.len() == 0 {
                    "Task"@
                } else {
                    "Task → "@ + join(reqs, ", "@)
                },
                documentation: None,
            }
        },
        EntryGroup::Concepts => EntryView {
            label: k,
            kind: CompletionKind::Class,
            detail: "Concept"@,
            documentation: None,
        },
        EntryGroup::Behaviors => {
            let reqs = set_items(trace.behavior_to_reqs, k);
            EntryView {
                label: k,
                kind: CompletionKind::Function,
                detail: if reqs.len() == 0 {
                    "Behavior"@
                } else {
                    "Behavior implements "@ + join(reqs, ", "@)
                },
                documentation: None,
            }
        },
    }
}

/// The completion item of a foreign symbol: a kind and a detail naming its
/// language and kind, and its declaration as documentation.
pub open spec fn foreign_entry(s: ForeignSymbolView) -> EntryView {
    let (kind, what) = match s.kind {
        ForeignSymbolKind::Model => (CompletionKind::Struct, " model"@),
        ForeignSymbolKind::Interface => (CompletionKind::Interface, " interface"@),
        ForeignSymbolKind::TypeAlias => (CompletionKind::TypeParameter, " type"@),
        ForeignSymbolKind::Enum => (CompletionKind::Enum, " enum"@),
        ForeignSymbolKind::Union => (CompletionKind::Enum, " union"@),
        ForeignSymbolKind::Schema => (CompletionKind::Struct, " schema"@),
        ForeignSymbolKind::Namespace => (CompletionKind::Module, " namespace"@),
        ForeignSymbolKind::Operation => (CompletionKind::Method, " operation"@),
    };
    EntryView { label: s.name, kind, detail: s.language + what, documentation: Some(s.declaration) }
}

/// The completion items of a map's keys, in order.
pub open spec fn group_entries(m: StrMap<Symbol>, g: EntryGroup, trace: TraceabilityGraph) -> Seq<EntryView> {
    m.key_seq().map_values(|k: Seq<char>| group_entry(g, k, trace))
}

/// All completion items: requirements, tasks, concepts and behaviors in
/// table order, then the foreign symbols.
pub open spec fn completions_of(t: SymbolTable, trace: TraceabilityGraph, fs: Seq<ForeignSymbolView>) -> Seq<EntryView> {
    group_entries(t.requirements, EntryGroup::Requirements, trace) + group_entries(
        t.tasks,
        EntryGroup::Tasks,
        trace,
    ) + group_entries(t.concepts, EntryGroup::Concepts, trace) + group_entries(
        t.behaviors,
        EntryGroup::Behaviors,
        trace,
    ) + fs.map_values(|s: ForeignSymbolView| foreign_entry(s))
}

/// The completion item of key `k` of group `g`.
fn entry_for(g: EntryGroup, k: &String, trace: &TraceabilityGraph) -> (e: CompletionEntry)
    ensures
        e@ == group_entry(g, k@, *trace),
{
    match g {
        EntryGroup::Requirements => CompletionEntry {
            label: k.clone(),
            kind: CompletionKind::Constant,
            detail: "Requirement".to_owned(),
            documentation: None,
        },
        EntryGroup::Tasks => {
            let reqs = trace.reqs_for_task(k.as_str());
            let mut detail = String::new();
            if reqs.len() == 0 {
                push_str(&mut detail, "Task");
            } else {
                push_str(&mut detail, "Task → ");
                let j = joined(&reqs, ", ");
                push_str(&mut detail, j.as_str());
            }
            CompletionEntry { label: k.clone(), kind: CompletionKind::Event, detail, documentation: None }
        },
        EntryGroup::Concepts => CompletionEntry {
            label: k.clone(),
            kind: CompletionKind::Class,
            detail: "Concept".to_owned(),
            documentation: None,
        },
        EntryGroup::Behaviors => {
            let reqs = trace.reqs_for_behavior(k.as_str());
            let mut detail = String::new();
            if reqs.len() == 0 {
                push_str(&mut detail, "Behavior");
            } else {
                push_str(&mut detail, "Behavior implements ");
                let j = joined(&reqs, ", ");
                push_str(&mut detail, j.as_str());
            }
            CompletionEntry { label: k.clone(), kind: CompletionKind::Function, detail, documentation: None }
        },
    }
}

/// Append the completion items of a map's keys, in order.
fn push_group_entries(out: &mut Vec<CompletionEntry>, m: &StrMap<Symbol>, g: EntryGroup, trace: &TraceabilityGraph)
    ensures
        entry_views(final(out)@) == entry_views(old(out)@) + group_entries(*m, g, *trace),
{
    let ghost start = entry_views(out@);
    let ghost keys = m.key_seq();
    let n = m.len();
    let mut i: usize = 0;
    while i < n
        invariant
            i <= n,
            n == m.entry_seq().len(),
            keys == m.key_seq(),
            entry_views(out@) == start + keys.take(i as int).map_values(
                |k: Seq<char>| group_entry(g, k, *trace),
            ),
        decreases n - i,
    {
        let k = m.key_at(i);
        let e = entry_for(g, k, trace);
        let ghost o0 = out@;
        out.push(e);
        proof {
            assert(keys[i as int] == k@);
            assert(keys.take(i + 1).map_values(|k: Seq<char>| group_entry(g, k, *trace)) =~= keys.take(
                i as int,
            ).map_values(|k: Seq<char>| group_entry(g, k, *trace)).push(group_entry(g, k@, *trace)));
            assert(entry_views(out@) =~= entry_views(o0).push(e@));
        }
        i += 1;
    }
    assert(keys.take(n as int) =~= keys);
}

/// The completion item of a foreign symbol.
fn foreign_entry_for(s: &crate::foreign::ForeignSymbol) -> (e: CompletionEntry)
    ensures
        e@ == foreign_entry(s@),
{
    let mut detail = s.language.clone();
    let kind = match s.kind {
        ForeignSymbolKind::Model => {
            push_str(&mut detail, " model");
            CompletionKind::Struct
        },
        ForeignSymbolKind::Interface => {
            push_str(&mut detail, " interface");
            CompletionKind::Interface
        },
        ForeignSymbolKind::TypeAlias => {
            push_str(&mut detail, " type");
            CompletionKind::TypeParameter
        },
        ForeignSymbolKind::Enum => {
            push_str(&mut detail, " enum");
            CompletionKind::Enum
        },
        ForeignSymbolKind::Union => {
            push_str(&mut detail, " union");
            CompletionKind::Enum
        },
        ForeignSymbolKind::Schema => {
            push_str(&mut detail, " schema");
            CompletionKind::Struct
        },
        ForeignSymbolKind::Namespace => {
            push_str(&mut detail, " namespace");
            CompletionKind::Module
        },
        ForeignSymbolKind::Operation => {
            push_str(&mut detail, " operation");
            CompletionKind::Method
        },
    };
    CompletionEntry {
        label: s.name.clone(),
        kind,
        detail,
        documentation: Some(s.declaration.clone()),
    }
}

/// Get completions: requirements, tasks (with the requirements they are
/// linked to), concepts, behaviors (with the requirements they implement),
/// then the foreign symbols with their declarations.
pub fn completions(table: &UnifiedSymbolTable, trace: &TraceabilityGraph) -> (items: Vec<CompletionEntry>)
    ensures
        entry_views(items@) == completions_of(table.topos_table(), *trace, table@.1),
{
    let t = table.topos();
    let mut items: Vec<CompletionEntry> = Vec::new();
    assert(entry_views(items@) =~= Seq::<EntryView>::empty());
    push_group_entries(&mut items, &t.requirements, EntryGroup::Requirements, trace);
    push_group_entries(&mut items, &t.tasks, EntryGroup::Tasks, trace);
    push_group_entries(&mut items, &t.concepts, EntryGroup::Concepts, trace);
    push_group_entries(&mut items, &t.behaviors, EntryGroup::Behaviors, trace);
    let fs = table.foreign();
    let ghost before = entry_views(items@);
    let ghost fv = table@.1;
    let mut i: usize = 0;
    while i < fs.symbols.len()
        invariant
            i <= fs.symbols@.len(),
            fv == fs@,
            entry_views(items@) == before + fv.take(i as int).map_values(
                |s: ForeignSymbolView| foreign_entry(s),
            ),
        decreases fs.symbols.len() - i,
    {
        let e = foreign_entry_for(&fs.symbols[i]);
        let ghost o0 = items@;
        items.push(e);
        proof {
            assert(fv[i as int] == fs.symbols@[i as int]@);
            assert(fv.take(i + 1).map_values(|s: ForeignSymbolView| foreign_entry(s)) =~= fv.take(
                i as int,
            ).map_values(|s: ForeignSymbolView| foreign_entry(s)).push(foreign_entry(fv[i as int])));
            assert(entry_views(items@) =~= entry_views(o0).push(e@));
        }
        i += 1;
    }
    assert(fv.take(fv.len() as int) =~= fv);
    items
}

// ============================================================================
// Hover, definitions and references
// ============================================================================

/// The index of the first of `spans` that holds `offset`.
pub open spec fn first_holding(spans: Seq<Span>, offset: usize) -> Option<int> {
    if exists|i: int| 0 <= i < spans.len() && holds(spans[i], offset) {
        Some(
            choose|i: int|
                0 <= i < spans.len() && holds(spans[i], offset) && forall|j: int|
                    0 <= j < i ==> !holds(spans[j], offset),
        )
    } else {
        None
    }
}

/// The first span found is the one `first_holding` names.
proof fn lemma_first_holding(spans: Seq<Span>, offset: usize, i: int)
    requires
        0 <= i < spans.len(),
        holds(spans[i], offset),
        forall|j: int| 0 <= j < i ==> !holds(spans[j], offset),
    ensures
        first_holding(spans, offset) == Some(i),
{
    let k = choose|k: int|
        0 <= k < spans.len() && holds(spans[k], offset) && forall|j: int|
            0 <= j < k ==> !holds(spans[j], offset);
    assert(0 <= i < spans.len() && holds(spans[i], offset) && forall|j: int|
        0 <= j < i ==> !holds(spans[j], offset));
    if k < i {
    } else if k > i {
    }
}

/// The Topos symbols of a table, in table order.
pub open spec fn ordered_symbols(m: StrMap<Symbol>) -> Seq<SymbolView> {
    m.key_seq().map_values(|k: Seq<char>| m@[k]@)
}

/// The spans of a sequence of symbols.
pub open spec fn symbol_spans(s: Seq<SymbolView>) -> Seq<Span> {
    s.map_values(|x: SymbolView| x.span)
}

/// The spans of a sequence of references.
pub open spec fn reference_spans(s: Seq<ResolvedView>) -> Seq<Span> {
    s.map_values(|x: ResolvedView| x.span)
}

/// The spans of a sequence of foreign symbols.
pub open spec fn foreign_spans(s: Seq<ForeignSymbolView>) -> Seq<Span> {
    s.map_values(|x: ForeignSymbolView| x.span)
}

/// The label of a reference kind.
pub open spec fn reference_label(k: ReferenceKind) -> Seq<char> {
    match k {
        ReferenceKind::Type => "type reference"@,
        ReferenceKind::Requirement => "requirement reference"@,
        ReferenceKind::Task => "task reference"@,
        ReferenceKind::Concept => "concept reference"@,
    }
}

/// The hover text of a reference: what it resolves to in the unified
/// table, or that it is unresolved.
pub open spec fn reference_hover(t: (crate::symbols::TableModel, Seq<ForeignSymbolView>), r: ResolvedView) -> Seq<char> {
    let head = "**"@ + reference_label(r.kind) + "** `"@ + r.name + "`"@;
    match lookup(t, r.name) {
        Some(u) => head + "\n\n✓ resolved to:\n\n"@ + hover_text(u),
        None => head + "\n\n✗ unresolved"@,
    }
}

/// What hovering at `offset` shows: the first Topos symbol (in table order)
/// whose span holds it, else the first reference whose span holds it.
pub open spec fn hover_result(table: UnifiedSymbolTable, refs: Seq<ResolvedView>, offset: usize) -> Option<
    (Seq<char>, Span),
> {
    let syms = ordered_symbols(table.topos_table().symbols);
    match first_holding(symbol_spans(syms), offset) {
        Some(i) => Some((hover_text(UnifiedView::Topos(syms[i])), syms[i].span)),
        None => match first_holding(reference_spans(refs), offset) {
            Some(j) => Some((reference_hover(table@, refs[j]), refs[j].span)),
            None => None,
        },
    }
}

/// The first Topos symbol (in table order) whose span holds `offset`.
fn symbol_at<'a>(m: &'a StrMap<Symbol>, offset: usize) -> (r: Option<&'a Symbol>)
    ensures
        match first_holding(symbol_spans(ordered_symbols(*m)), offset) {
            Some(i) => r matches Some(s) && s@ == ordered_symbols(*m)[i],
            None => r is None,
        },
{
    let ghost syms = ordered_symbols(*m);
    let ghost spans = symbol_spans(syms);
    let n = m.len();
    let mut i: usize = 0;
    while i < n
        invariant
            i <= n,
            n == m.entry_seq().len(),
            syms == ordered_symbols(*m),
            spans == symbol_spans(syms),
            forall|j: int| 0 <= j < i ==> !holds(spans[j], offset),
        decreases n - i,
    {
        let s = m.value_at(i);
        assert(syms[i as int] == s@);
        assert(spans[i as int] == s.span);
        if span_contains(&s.span, offset) {
            proof {
                lemma_first_holding(spans, offset, i as int);
            }
            return Some(s);
        }
        i += 1;
    }
    None
}

/// The first reference whose span holds `offset`.
fn reference_at(refs: &ResolvedReferences, offset: usize) -> (r: Option<usize>)
    ensures
        match r {
            Some(j) => j < refs.references@.len() && first_holding(
                reference_spans(resolved_views(refs.references@)),
                offset,
            ) == Some(j as int),
            None => first_holding(reference_spans(resolved_views(refs.references@)), offset) is None,
        },
{
    let ghost spans = reference_spans(resolved_views(refs.references@));
    let mut i: usize = 0;
    while i < refs.references.len()
        invariant
            i <= refs.references@.len(),
            spans == reference_spans(resolved_views(refs.references@)),
            forall|j: int| 0 <= j < i ==> !holds(spans[j], offset),
        decreases refs.references.len() - i,
    {
        assert(spans[i as int] == refs.references@[i as int].reference.span);
        if span_contains(&refs.references[i].reference.span, offset) {
            proof {
                lemma_first_holding(spans, offset, i as int);
            }
            return Some(i);
        }
        i += 1;
    }
    None
}

/// The label of a reference kind.
fn reference_kind_label(k: ReferenceKind) -> (r: &'static str)
    ensures
        r@ == reference_label(k),
{
    match k {
        ReferenceKind::Type => "type reference",
        ReferenceKind::Requirement => "requirement reference",
        ReferenceKind::Task => "task reference",
        ReferenceKind::Concept => "concept reference",
    }
}

/// Get hover text at a byte offset: the hover docs of the Topos symbol
/// defined there, else what the reference there resolves to.
pub fn hover_at(table: &UnifiedSymbolTable, refs: &ResolvedReferences, offset: usize) -> (r: Option<(String, Span)>)
    ensures
        match r {
            Some((text, span)) => hover_result(*table, resolved_views(refs.references@), offset)
                == Some((text@, span)),
            None => hover_result(*table, resolved_views(refs.references@), offset) is None,
        },
{
    let t = table.topos();
    match symbol_at(&t.symbols, offset) {
        Some(symbol) => {
            let unified = UnifiedSymbol::Topos(symbol.clone());
            Some((unified.hover_docs(), symbol.span))
        },
        None => match reference_at(refs, offset) {
            Some(j) => {
                let rr = &refs.references[j];
                let ghost rv = resolved_views(refs.references@)[j as int];
                assert(rv == rr@);
                let mut text = String::new();
                push_str(&mut text, "**");
                push_str(&mut text, reference_kind_label(rr.reference.kind));
                push_str(&mut text, "** `");
                push_str(&mut text, rr.reference.name.as_str());
                push_str(&mut text, "`");
                match table.get(rr.reference.name.as_str()) {
                    Some(u) => {
                        push_str(&mut text, "\n\n✓ resolved to:\n\n");
                        let d = u.hover_docs();
                        push_str(&mut text, d.as_str());
                    },
                    None => {
                        push_str(&mut text, "\n\n✗ unresolved");
                    },
                }
                Some((text, rr.reference.span))
            },
            None => None,
        },
    }
}

/// The index of the first reference that holds `offset` and resolved.
pub open spec fn first_definition(refs: Seq<ResolvedView>, offset: usize) -> Option<int> {
    if exists|i: int| 0 <= i < refs.len() && holds(refs[i].span, offset) && refs[i].symbol is Some {
        Some(
            choose|i: int|
                0 <= i < refs.len() && holds(refs[i].span, offset) && refs[i].symbol is Some
                    && forall|j: int|
                    0 <= j < i ==> !(holds(refs[j].span, offset) && refs[j].symbol is Some),
        )
    } else {
        None
    }
}

/// Go to definition at a byte offset: the span of the symbol that the first
/// resolved reference there names.
pub fn goto_definition(refs: &ResolvedReferences, offset: usize) -> (r: Option<Span>)
    ensures
        match first_definition(resolved_views(refs.references@), offset) {
            Some(i) => r == Some(resolved_views(refs.references@)[i].symbol->0.span),
            None => r is None,
        },
{
    let ghost rv = resolved_views(refs.references@);
    let mut i: usize = 0;
    while i < refs.references.len()
        invariant
            i <= refs.references@.len(),
            rv == resolved_views(refs.references@),
            forall|j: int| 0 <= j < i ==> !(holds(rv[j].span, offset) && rv[j].symbol is Some),
        decreases refs.references.len() - i,
    {
        let rr = &refs.references[i];
        assert(rv[i as int] == rr@);
        if span_contains(&rr.reference.span, offset) {
            match &rr.symbol {
                Some(symbol) => {
                    proof {
                        let k = choose|k: int|
                            0 <= k < rv.len() && holds(rv[k].span, offset) && rv[k].symbol is Some
                                && forall|j: int|
                                0 <= j < k ==> !(holds(rv[j].span, offset) && rv[j].symbol is Some);
                        assert(0 <= i < rv.len() && holds(rv[i as int].span, offset)
                            && rv[i as int].symbol is Some);
                        if k < i {
                        } else if k > i {
                        }
                    }
                    return Some(symbol.span);
                },
                None => {},
            }
        }
        i += 1;
    }
    None
}

/// The name of what stands at `offset`: the first Topos symbol (table
/// order) whose span holds it, else the first foreign symbol, else the
/// first reference.
pub open spec fn target_name(table: UnifiedSymbolTable, refs: Seq<ResolvedView>, offset: usize) -> Option<Seq<char>> {
    let syms = ordered_symbols(table.topos_table().symbols);
    match first_holding(symbol_spans(syms), offset) {
        Some(i) => Some(syms[i].name),
        None => match first_holding(foreign_spans(table@.1), offset) {
            Some(j) => Some(table@.1[j].name),
            None => match first_holding(reference_spans(refs), offset) {
                Some(k) => Some(refs[k].name),
                None => None,
            },
        },
    }
}

/// The span of a unified symbol.
pub open spec fn unified_span(u: UnifiedView) -> Span {
    match u {
        UnifiedView::Topos(s) => s.span,
        UnifiedView::Foreign(s) => s.span,
    }
}

/// The spans of the references named `name`, in order.
pub open spec fn spans_named(refs: Seq<ResolvedView>, name: Seq<char>) -> Seq<Span>
    decreases refs.len(),
{
    if refs.len() == 0 {
        Seq::empty()
    } else if refs.last().name == name {
        spans_named(refs.drop_last(), name).push(refs.last().span)
    } else {
        spans_named(refs.drop_last(), name)
    }
}

/// Where the name at `offset` stands: its definition, when it resolves in
/// the unified table, then every reference to it.
pub open spec fn reference_locations(table: UnifiedSymbolTable, refs: Seq<ResolvedView>, offset: usize) -> Seq<Span> {
    match target_name(table, refs, offset) {
        Some(name) => (match lookup(table@, name) {
            Some(u) => seq![unified_span(u)],
            None => Seq::empty(),
        }) + spans_named(refs, name),
        None => Seq::empty(),
    }
}

/// The first foreign symbol whose span holds `offset`.
fn foreign_at(fs: &crate::foreign::ForeignSymbols, offset: usize) -> (r: Option<usize>)
    ensures
        match r {
            Some(j) => j < fs.symbols@.len() && first_holding(foreign_spans(fs@), offset) == Some(
                j as int,
            ),
            None => first_holding(foreign_spans(fs@), offset) is None,
        },
{
    let ghost spans = foreign_spans(fs@);
    let mut i: usize = 0;
    while i < fs.symbols.len()
        invariant
            i <= fs.symbols@.len(),
            spans == foreign_spans(fs@),
            forall|j: int| 0 <= j < i ==> !holds(spans[j], offset),
        decreases fs.symbols.len() - i,
    {
        assert(spans[i as int] == fs.symbols@[i as int].span);
        if span_contains(&fs.symbols[i].span, offset) {
            proof {
                lemma_first_holding(spans, offset, i as int);
            }
            return Some(i);
        }
        i += 1;
    }
    None
}

/// The name of what stands at a byte offset.
fn target_at(table: &UnifiedSymbolTable, refs: &ResolvedReferences, offset: usize) -> (r: Option<String>)
    ensures
        match r {
            Some(n) => target_name(*table, resolved_views(refs.references@), offset) == Some(n@),
            None => target_name(*table, resolved_views(refs.references@), offset) is None,
        },
{
    let ghost rv = resolved_views(refs.references@);
    let t = table.topos();
    match symbol_at(&t.symbols, offset) {
        Some(s) => Some(s.name.clone()),
        None => match foreign_at(table.foreign(), offset) {
            Some(j) => Some(table.foreign().symbols[j].name.clone()),
            None => match reference_at(refs, offset) {
                Some(k) => {
                    assert(rv[k as int] == refs.references@[k as int]@);
                    Some(refs.references[k].reference.name.clone())
                },
                None => None,
            },
        },
    }
}

/// The spans of the references named `name`, in order.
fn spans_of_references(refs: &ResolvedReferences, name: &str, locations: &mut Vec<Span>)
    ensures
        final(locations)@ == old(locations)@ + spans_named(resolved_views(refs.references@), name@),
{
    let ghost rv = resolved_views(refs.references@);
    let ghost head = locations@;
    let mut i: usize = 0;
    assert(rv.take(0) =~= Seq::<ResolvedView>::empty());
    while i < refs.references.len()
        invariant
            i <= refs.references@.len(),
            rv == resolved_views(refs.references@),
            locations@ == head + spans_named(rv.take(i as int), name@),
        decreases refs.references.len() - i,
    {
        proof {
            assert(rv.take(i + 1).drop_last() =~= rv.take(i as int));
            assert(rv.take(i + 1).last() == rv[i as int]);
            assert(rv[i as int] == refs.references@[i as int]@);
        }
        if crate::text::str_eq(refs.references[i].reference.name.as_str(), name) {
            locations.push(refs.references[i].reference.span);
        }
        i += 1;
    }
    assert(rv.take(rv.len() as int) =~= rv);
}

/// Find all references to what stands at a byte offset: its definition
/// first, when it resolves, then every reference with its name.
pub fn find_references(table: &UnifiedSymbolTable, refs: &ResolvedReferences, offset: usize) -> (r: Vec<Span>)
    ensures
        r@ == reference_locations(*table, resolved_views(refs.references@), offset),
{
    let name = match target_at(table, refs, offset) {
        Some(n) => n,
        None => return Vec::new(),
    };
    let mut locations: Vec<Span> = Vec::new();
    match table.get(name.as_str()) {
        Some(u) => {
            let sp = u.span();
            locations.push(sp);
        },
        None => {},
    }
    assert(locations@ =~= match lookup(table@, name@) {
        Some(u) => seq![unified_span(u)],
        None => Seq::<Span>::empty(),
    });
    spans_of_references(refs, name.as_str(), &mut locations);
    locations
}

// ============================================================================
// Filling typed holes
// ============================================================================

/// The views of a sequence of (label, text) pairs.
pub open spec fn pair_views(s: Seq<(String, String)>) -> Seq<(Seq<char>, Seq<char>)> {
    s.map_values(|p: (String, String)| (p.0@, p.1@))
}

/// The suggestions when the name mentions an ID.
pub open spec fn id_group(f: Seq<char>) -> Seq<(Seq<char>, Seq<char>)> {
    if seq_contains(f, "id"@) {
        seq![("Fill with `String` (common ID type)"@, "(`String`)"@), ("Fill with `UUID` (unique ID type)"@, "(`UUID`)"@)]
    } else {
        Seq::empty()
    }
}

/// The suggestions when the name mentions a date or time.
pub open spec fn time_group(f: Seq<char>) -> Seq<(Seq<char>, Seq<char>)> {
    if seq_contains(f, "date"@) || seq_contains(f, "time"@) || seq_contains(f, "at"@) {
        seq![("Fill with `DateTime`"@, "(`DateTime`)"@), ("Fill with `Timestamp`"@, "(`Timestamp`)"@)]
    } else {
        Seq::empty()
    }
}

/// The suggestions when the name mentions a status.
pub open spec fn status_group(f: Seq<char>) -> Seq<(Seq<char>, Seq<char>)> {
    if seq_contains(f, "status"@) || seq_contains(f, "state"@) {
        seq![("Fill with `Enum` (define a status enum)"@, "(`Status`)"@)]
    } else {
        Seq::empty()
    }
}

/// The suggestions when the name mentions an amount.
pub open spec fn money_group(f: Seq<char>) -> Seq<(Seq<char>, Seq<char>)> {
    if seq_contains(f, "amount"@) || seq_contains(f, "price"@) || seq_contains(f, "total"@) || seq_contains(f, "cost"@) {
        seq![("Fill with `Currency`"@, "(`Currency`)"@), ("Fill with `Decimal`"@, "(`Decimal`)"@)]
    } else {
        Seq::empty()
    }
}

/// The suggestions when the name mentions an email.
pub open spec fn email_group(f: Seq<char>) -> Seq<(Seq<char>, Seq<char>)> {
    if seq_contains(f, "email"@) {
        seq![("Fill with `Email`"@, "(`Email`)"@)]
    } else {
        Seq::empty()
    }
}

/// The suggestions when the name mentions a text.
pub open spec fn text_group(f: Seq<char>) -> Seq<(Seq<char>, Seq<char>)> {
    if seq_contains(f, "name"@) || seq_contains(f, "title"@) || seq_contains(f, "description"@) {
        seq![("Fill with `String`"@, "(`String`)"@)]
    } else {
        Seq::empty()
    }
}

/// The suggestions when the name mentions a count.
pub open spec fn count_group(f: Seq<char>) -> Seq<(Seq<char>, Seq<char>)> {
    if seq_contains(f, "count"@) || seq_contains(f, "number"@) || seq_contains(f, "quantity"@) {
        seq![("Fill with `Int`"@, "(`Int`)"@)]
    } else {
        Seq::empty()
    }
}

/// The suggestions when the name mentions a flag.
pub open spec fn flag_group(f: Seq<char>) -> Seq<(Seq<char>, Seq<char>)> {
    if seq_contains(f, "enabled"@) || seq_contains(f, "active"@) || seq_contains(f, "is_"@) {
        seq![("Fill with `Bool`"@, "(`Bool`)"@)]
    } else {
        Seq::empty()
    }
}

/// The suggestions a field's name calls for, group by group.
pub open spec fn field_suggestions(f: Seq<char>) -> Seq<(Seq<char>, Seq<char>)> {
    id_group(f) + time_group(f) + status_group(f) + money_group(f) + email_group(f) + text_group(f) + count_group(f) + flag_group(f)
}

/// The suggestions a hole's context calls for.
pub open spec fn parent_suggestions(p: ParentView) -> Seq<(Seq<char>, Seq<char>)> {
    match p {
        ParentView::ConceptField { field_name, .. } => field_suggestions(field_name),
        ParentView::BehaviorSignature { .. } => seq![("Fill with input type"@, "(`Input`)"@)],
        ParentView::BehaviorReturns { .. } => seq![
            ("Fill with `Result<T, E>`"@, "(`Result<Success, Error>`)"@),
            ("Fill with `Option<T>`"@, "(`Option<Value>`)"@),
        ],
        ParentView::BehaviorConstraint { .. } => seq![("Fill with constraint expression"@, "(value > 0)"@)],
        ParentView::Unknown => Seq::empty(),
    }
}

/// The suggestion of a related concept.
pub open spec fn concept_suggestion(c: Seq<char>) -> (Seq<char>, Seq<char>) {
    ("Fill with related concept: `"@ + c + "`"@, "(`"@ + c + "`)"@)
}

/// The suggestions for filling a hole: its type hint, what its context
/// calls for, its related concepts; the three basic types when none apply.
pub open spec fn hole_suggestions_of(h: HoleView) -> Seq<(Seq<char>, Seq<char>)> {
    let all = (match h.type_hint {
        Some(t) => seq![("Fill with type: "@ + t, "("@ + t + ")"@)],
        None => Seq::empty(),
    }) + parent_suggestions(h.parent) + h.related_concepts.map_values(
        |c: Seq<char>| concept_suggestion(c),
    );
    if all.len() == 0 {
        seq![("Fill with `String`"@, "(`String`)"@), ("Fill with `Int`"@, "(`Int`)"@), ("Fill with `Bool`"@, "(`Bool`)"@)]
    } else {
        all
    }
}

/// Append a (label, text) pair.
fn push_pair(v: &mut Vec<(String, String)>, label: &str, text: &str)
    ensures
        pair_views(final(v)@) == pair_views(old(v)@).push((label@, text@)),
{
    let ghost v0 = v@;
    v.push((label.to_owned(), text.to_owned()));
    assert(pair_views(v@) =~= pair_views(v0).push((label@, text@)));
}

/// Append the suggestions when the name mentions an ID.
fn push_id_group(v: &mut Vec<(String, String)>, f: &str)
    ensures
        pair_views(final(v)@) == pair_views(old(v)@) + id_group(f@),
{
    let ghost v0 = pair_views(v@);
    if contains(f, "id") {
        push_pair(v, "Fill with `String` (common ID type)", "(`String`)");
        push_pair(v, "Fill with `UUID` (unique ID type)", "(`UUID`)");
    }
    assert(pair_views(v@) =~= v0 + id_group(f@));
}

/// Append the suggestions when the name mentions a date or time.
fn push_time_group(v: &mut Vec<(String, String)>, f: &str)
    ensures
        pair_views(final(v)@) == pair_views(old(v)@) + time_group(f@),
{
    let ghost v0 = pair_views(v@);
    if contains(f, "date") || contains(f, "time") || contains(f, "at") {
        push_pair(v, "Fill with `DateTime`", "(`DateTime`)");
        push_pair(v, "Fill with `Timestamp`", "(`Timestamp`)");
    }
    assert(pair_views(v@) =~= v0 + time_group(f@));
}

/// Append the suggestions when the name mentions a status.
fn push_status_group(v: &mut Vec<(String, String)>, f: &str)
    ensures
        pair_views(final(v)@) == pair_views(old(v)@) + status_group(f@),
{
    let ghost v0 = pair_views(v@);
    if contains(f, "status") || contains(f, "state") {
        push_pair(v, "Fill with `Enum` (define a status enum)", "(`Status`)");
    }
    assert(pair_views(v@) =~= v0 + status_group(f@));
}

/// Append the suggestions when the name mentions an amount.
fn push_money_group(v: &mut Vec<(String, String)>, f: &str)
    ensures
        pair_views(final(v)@) == pair_views(old(v)@) + money_group(f@),
{
    let ghost v0 = pair_views(v@);
    if contains(f, "amount") || contains(f, "price") || contains(f, "total") || contains(f, "cost") {
        push_pair(v, "Fill with `Currency`", "(`Currency`)");
        push_pair(v, "Fill with `Decimal`", "(`Decimal`)");
    }
    assert(pair_views(v@) =~= v0 + money_group(f@));
}

/// Append the suggestions when the name mentions an email.
fn push_email_group(v: &mut Vec<(String, String)>, f: &str)
    ensures
        pair_views(final(v)@) == pair_views(old(v)@) + email_group(f@),
{
    let ghost v0 = pair_views(v@);
    if contains(f, "email") {
        push_pair(v, "Fill with `Email`", "(`Email`)");
    }
    assert(pair_views(v@) =~= v0 + email_group(f@));
}

/// Append the suggestions when the name mentions a text.
fn push_text_group(v: &mut Vec<(String, String)>, f: &str)
    ensures
        pair_views(final(v)@) == pair_views(old(v)@) + text_group(f@),
{
    let ghost v0 = pair_views(v@);
    if contains(f, "name") || contains(f, "title") || contains(f, "description") {
        push_pair(v, "Fill with `String`", "(`String`)");
    }
    assert(pair_views(v@) =~= v0 + text_group(f@));
}

/// Append the suggestions when the name mentions a count.
fn push_count_group(v: &mut Vec<(String, String)>, f: &str)
    ensures
        pair_views(final(v)@) == pair_views(old(v)@) + count_group(f@),
{
    let ghost v0 = pair_views(v@);
    if contains(f, "count") || contains(f, "number") || contains(f, "quantity") {
        push_pair(v, "Fill with `Int`", "(`Int`)");
    }
    assert(pair_views(v@) =~= v0 + count_group(f@));
}

/// Append the suggestions when the name mentions a flag.
fn push_flag_group(v: &mut Vec<(String, String)>, f: &str)
    ensures
        pair_views(final(v)@) == pair_views(old(v)@) + flag_group(f@),
{
    let ghost v0 = pair_views(v@);
    if contains(f, "enabled") || contains(f, "active") || contains(f, "is_") {
        push_pair(v, "Fill with `Bool`", "(`Bool`)");
    }
    assert(pair_views(v@) =~= v0 + flag_group(f@));
}

/// Append the suggestions a field's name calls for.
fn push_field_suggestions(v: &mut Vec<(String, String)>, f: &str)
    ensures
        pair_views(final(v)@) == pair_views(old(v)@) + field_suggestions(f@),
{
    let ghost v0 = pair_views(v@);
    push_id_group(v, f);
    push_time_group(v, f);
    push_status_group(v, f);
    push_money_group(v, f);
    push_email_group(v, f);
    push_text_group(v, f);
    push_count_group(v, f);
    push_flag_group(v, f);
    assert(pair_views(v@) =~= v0 + field_suggestions(f@));
}

/// Generate suggestions for filling a hole based on its context.
pub fn generate_hole_suggestions(hole: &HoleWithContext) -> (r: Vec<(String, String)>)
    ensures
        pair_views(r@) == hole_suggestions_of(hole@),
{
    let mut v: Vec<(String, String)> = Vec::new();
    assert(pair_views(v@) =~= Seq::<(Seq<char>, Seq<char>)>::empty());
    match &hole.type_hint {
        Some(t) => {
            let mut label = String::new();
            push_str(&mut label, "Fill with type: ");
            push_str(&mut label, t.as_str());
            let mut text = String::new();
            push_str(&mut text, "(");
            push_str(&mut text, t.as_str());
            push_str(&mut text, ")");
            push_pair(&mut v, label.as_str(), text.as_str());
        },
        None => {},
    }
    let ghost a = pair_views(v@);
    match &hole.parent {
        crate::holes::HoleParent::ConceptField { field_name, .. } => {
            push_field_suggestions(&mut v, field_name.as_str());
        },
        crate::holes::HoleParent::BehaviorSignature { .. } => {
            push_pair(&mut v, "Fill with input type", "(`Input`)");
        },
        crate::holes::HoleParent::BehaviorReturns { .. } => {
            push_pair(&mut v, "Fill with `Result<T, E>`", "(`Result<Success, Error>`)");
            push_pair(&mut v, "Fill with `Option<T>`", "(`Option<Value>`)");
        },
        crate::holes::HoleParent::BehaviorConstraint { .. } => {
            push_pair(&mut v, "Fill with constraint expression", "(value > 0)");
        },
        crate::holes::HoleParent::Unknown => {},
    }
    assert(pair_views(v@) =~= a + parent_suggestions(hole@.parent));
    let ghost b = pair_views(v@);
    let ghost cs = hole@.related_concepts;
    let mut i: usize = 0;
    while i < hole.related_concepts.len()
        invariant
            i <= hole.related_concepts@.len(),
            cs == hole@.related_concepts,
            cs == views(hole.related_concepts@),
            pair_views(v@) == b + cs.take(i as int).map_values(|c: Seq<char>| concept_suggestion(c)),
        decreases hole.related_concepts.len() - i,
    {
        let c = hole.related_concepts[i].as_str();
        let mut label = String::new();
        push_str(&mut label, "Fill with related concept: `");
        push_str(&mut label, c);
        push_str(&mut label, "`");
        let mut text = String::new();
        push_str(&mut text, "(`");
        push_str(&mut text, c);
        push_str(&mut text, "`)");
        let ghost before = pair_views(v@);
        push_pair(&mut v, label.as_str(), text.as_str());
        proof {
            assert(cs[i as int] == c@);
            assert(cs.take(i + 1).map_values(|c: Seq<char>| concept_suggestion(c)) =~= cs.take(
                i as int,
            ).map_values(|c: Seq<char>| concept_suggestion(c)).push(concept_suggestion(c@)));
        }
        i += 1;
    }
    assert(cs.take(cs.len() as int) =~= cs);
    if v.len() == 0 {
        push_pair(&mut v, "Fill with `String`", "(`String`)");
        push_pair(&mut v, "Fill with `Int`", "(`Int`)");
        push_pair(&mut v, "Fill with `Bool`", "(`Bool`)");
    }
    v
}

/// A quick fix that fills a hole: the hole's range, a title, the text to
/// put there, and whether it is the preferred one.
#[derive(Debug)]
pub struct HoleAction {
    pub range: Range,
    pub title: String,
    pub new_text: String,
    pub preferred: bool,
}

/// What a quick fix says, its texts taken by their views.
pub open spec fn action_view(a: HoleAction) -> (Range, Seq<char>, Seq<char>, bool) {
    (a.range, a.title@, a.new_text@, a.preferred)
}

/// The quick fixes of one hole: one per suggestion, the first preferred.
pub open spec fn hole_actions_of(h: HoleView) -> Seq<(Range, Seq<char>, Seq<char>, bool)> {
    let s = hole_suggestions_of(h);
    Seq::new(s.len(), |i: int| (range_of(h.span), s[i].0, s[i].1, i == 0))
}

/// The quick fixes for the holes whose range overlaps `range`, in order.
pub open spec fn code_actions_of(holes: Seq<HoleView>, range: Range) -> Seq<(Range, Seq<char>, Seq<char>, bool)>
    decreases holes.len(),
{
    if holes.len() == 0 {
        Seq::empty()
    } else {
        let h = holes.last();
        code_actions_of(holes.drop_last(), range) + if !(ends_before(range, range_of(h.span))
            || ends_before(range_of(h.span), range)) {
            hole_actions_of(h)
        } else {
            Seq::empty()
        }
    }
}

/// Get code actions for a range: a quick fix per suggestion for each hole
/// whose range overlaps it.
pub fn code_actions(holes: &HoleCollection, range: &Range) -> (r: Vec<HoleAction>)
    ensures
        r@.map_values(|a: HoleAction| action_view(a)) == code_actions_of(
            holes.holes@.map_values(|h: HoleWithContext| h@),
            *range,
        ),
{
    let ghost hs = holes.holes@.map_values(|h: HoleWithContext| h@);
    let mut actions: Vec<HoleAction> = Vec::new();
    let mut i: usize = 0;
    assert(hs.take(0) =~= Seq::<HoleView>::empty());
    assert(actions@.map_values(|a: HoleAction| action_view(a)) =~= Seq::<(Range, Seq<char>, Seq<char>, bool)>::empty());
    while i < holes.holes.len()
        invariant
            i <= holes.holes@.len(),
            hs == holes.holes@.map_values(|h: HoleWithContext| h@),
            actions@.map_values(|a: HoleAction| action_view(a)) == code_actions_of(hs.take(i as int), *range),
        decreases holes.holes.len() - i,
    {
        proof {
            assert(hs.take(i + 1).drop_last() =~= hs.take(i as int));
            assert(hs.take(i + 1).last() == hs[i as int]);
        }
        let h = &holes.holes[i];
        assert(hs[i as int] == h@);
        let hole_range = span_to_range(&h.span());
        if ranges_overlap(range, &hole_range) {
            let suggestions = generate_hole_suggestions(h);
            let ghost base = actions@.map_values(|a: HoleAction| action_view(a));
            let ghost sv = pair_views(suggestions@);
            let mut j: usize = 0;
            while j < suggestions.len()
                invariant
                    j <= suggestions@.len(),
                    sv == pair_views(suggestions@),
                    sv == hole_suggestions_of(h@),
                    hole_range == range_of(h@.span),
                    actions@.map_values(|a: HoleAction| action_view(a)) == base + hole_actions_of(h@).take(j as int),
                decreases suggestions.len() - j,
            {
                let ghost a0 = actions@;
                let act = HoleAction {
                    range: hole_range,
                    title: suggestions[j].0.clone(),
                    new_text: suggestions[j].1.clone(),
                    preferred: j == 0,
                };
                actions.push(act);
                proof {
                    assert(sv[j as int] == (suggestions@[j as int].0@, suggestions@[j as int].1@));
                    assert(hole_actions_of(h@).take(j + 1) =~= hole_actions_of(h@).take(j as int).push(
                        action_view(act),
                    ));
                    assert(actions@.map_values(|a: HoleAction| action_view(a)) =~= a0.map_values(
                        |a: HoleAction| action_view(a),
                    ).push(action_view(act)));
                }
                j += 1;
            }
            assert(hole_actions_of(h@).take(sv.len() as int) =~= hole_actions_of(h@));
        } else {
            assert(code_actions_of(hs.take(i + 1), *range) =~= code_actions_of(hs.take(i as int), *range));
        }
        i += 1;
    }
    assert(hs.take(hs.len() as int) =~= hs);
    actions
}

} // verus!
