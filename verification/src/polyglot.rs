//! Unified polyglot symbol resolution.
//!
//! This module provides a unified view of symbols from both Topos
//! specifications and embedded foreign code blocks.
use vstd::prelude::*;

use crate::ast::SourceFile;
use crate::foreign::{
    blocks_symbols, file_blocks, first_named, foreign_symbols, has_name, ForeignSymbol,
    ForeignSymbolKind, ForeignSymbolView, ForeignSymbols,
};
use crate::span::Span;
use crate::symbols::{symbols, symbols_of, Symbol, SymbolKind, SymbolTable, SymbolView, TableModel};
use crate::text::push_str;

verus! {

/// A unified symbol that can represent either a Topos symbol or a foreign symbol.
#[derive(Debug, Clone)]
pub enum UnifiedSymbol {
    /// A native Topos symbol (requirement, task, concept, etc.).
    Topos(Symbol),
    /// A foreign symbol from an embedded code block.
    Foreign(ForeignSymbol),
}

/// What a unified symbol stands for, its texts taken by their views.
pub enum UnifiedView {
    Topos(SymbolView),
    Foreign(ForeignSymbolView),
}

impl View for UnifiedSymbol {
    type V = UnifiedView;

    open spec fn view(&self) -> UnifiedView {
        match self {
            UnifiedSymbol::Topos(s) => UnifiedView::Topos(s@),
            UnifiedSymbol::Foreign(s) => UnifiedView::Foreign(s@),
        }
    }
}

/// The label of a Topos symbol kind.
pub open spec fn topos_label(k: SymbolKind) -> Seq<char> {
    match k {
        SymbolKind::Requirement => "requirement"@,
        SymbolKind::Task => "task"@,
        SymbolKind::Concept => "concept"@,
        SymbolKind::Behavior => "behavior"@,
        SymbolKind::Invariant => "invariant"@,
        SymbolKind::Field => "field"@,
    }
}

/// The label of a foreign symbol kind.
pub open spec fn foreign_label(k: ForeignSymbolKind) -> Seq<char> {
    match k {
        ForeignSymbolKind::Model => "model"@,
        ForeignSymbolKind::Interface => "interface"@,
        ForeignSymbolKind::TypeAlias => "type alias"@,
        ForeignSymbolKind::Enum => "enum"@,
        ForeignSymbolKind::Union => "union"@,
        ForeignSymbolKind::Schema => "schema"@,
        ForeignSymbolKind::Namespace => "namespace"@,
        ForeignSymbolKind::Operation => "operation"@,
    }
}

/// The hover text of a symbol: its kind and name in Markdown, then a
/// Topos symbol's title and status, or a foreign symbol's declaration in a
/// fenced block of its language.
pub open spec fn hover_text(u: UnifiedView) -> Seq<char> {
    match u {
        UnifiedView::Topos(s) => {
            let head = "**"@ + topos_label(s.kind) + "** `"@ + s.name + "`"@;
            let with_title = match s.title {
                Some(t) => head + "\n\n"@ + t,
                None => head,
            };
            match s.status {
                Some(st) => with_title + "\n\nStatus: "@ + st,
                None => with_title,
            }
        },
        UnifiedView::Foreign(s) => "**"@ + foreign_label(s.kind) + "** `"@ + s.name + "` ("@
            + s.language + ")"@ + "\n\n```"@ + s.language + "\n"@ + s.declaration + "\n```"@,
    }
}

impl UnifiedSymbol {
    /// Get the symbol name.
    pub fn name(&self) -> (r: &str)
        ensures
            r@ == match self@ {
                UnifiedView::Topos(s) => s.name,
                UnifiedView::Foreign(s) => s.name,
            },
    {
        match self {
            UnifiedSymbol::Topos(s) => s.name.as_str(),
            UnifiedSymbol::Foreign(s) => s.name.as_str(),
        }
    }

    /// Get the symbol's source span.
    pub fn span(&self) -> (r: Span)
        ensures
            r == match self@ {
                UnifiedView::Topos(s) => s.span,
                UnifiedView::Foreign(s) => s.span,
            },
    {
        match self {
            UnifiedSymbol::Topos(s) => s.span,
            UnifiedSymbol::Foreign(s) => s.span,
        }
    }

    /// Check if this is a Topos symbol.
    pub fn is_topos(&self) -> (b: bool)
        ensures
            b == (self@ is Topos),
    {
        match self {
            UnifiedSymbol::Topos(_) => true,
            UnifiedSymbol::Foreign(_) => false,
        }
    }

    /// Check if this is a foreign symbol.
    pub fn is_foreign(&self) -> (b: bool)
        ensures
            b == (self@ is Foreign),
    {
        match self {
            UnifiedSymbol::Topos(_) => false,
            UnifiedSymbol::Foreign(_) => true,
        }
    }

    /// Get a human-readable kind label.
    pub fn kind_label(&self) -> (r: &'static str)
        ensures
            r@ == match self@ {
                UnifiedView::Topos(s) => topos_label(s.kind),
                UnifiedView::Foreign(s) => foreign_label(s.kind),
            },
    {
        match self {
            UnifiedSymbol::Topos(s) => match s.kind {
                SymbolKind::Requirement => "requirement",
                SymbolKind::Task => "task",
                SymbolKind::Concept => "concept",
                SymbolKind::Behavior => "behavior",
                SymbolKind::Invariant => "invariant",
                SymbolKind::Field => "field",
            },
            UnifiedSymbol::Foreign(s) => s.kind.label(),
        }
    }

    /// Get hover documentation for this symbol.
    pub fn hover_docs(&self) -> (doc: String)
        ensures
            doc@ == hover_text(self@),
    {
        let mut doc = String::new();
        match self {
            UnifiedSymbol::Topos(s) => {
                push_str(&mut doc, "**");
                push_str(&mut doc, self.kind_label());
                push_str(&mut doc, "** `");
                push_str(&mut doc, s.name.as_str());
                push_str(&mut doc, "`");
                match &s.title {
                    Some(t) => {
                        push_str(&mut doc, "\n\n");
                        push_str(&mut doc, t.as_str());
                    },
                    None => {},
                }
                match &s.status {
                    Some(st) => {
                        push_str(&mut doc, "\n\nStatus: ");
                        push_str(&mut doc, st.as_str());
                    },
                    None => {},
                }
            },
            UnifiedSymbol::Foreign(s) => {
                push_str(&mut doc, "**");
                push_str(&mut doc, s.kind.label());
                push_str(&mut doc, "** `");
                push_str(&mut doc, s.name.as_str());
                push_str(&mut doc, "` (");
                push_str(&mut doc, s.language.as_str());
                push_str(&mut doc, ")");
                push_str(&mut doc, "\n\n```");
                push_str(&mut doc, s.language.as_str());
                push_str(&mut doc, "\n");
                push_str(&mut doc, s.declaration.as_str());
                push_str(&mut doc, "\n```");
            },
        }
        doc
    }
}

/// A foreign kind that names a type.
pub open spec fn is_type_kind(k: ForeignSymbolKind) -> bool {
    k is Model || k is Interface || k is TypeAlias || k is Enum || k is Union || k is Schema
}

/// The foreign symbols of `s` that name a type, in order.
pub open spec fn type_symbols(s: Seq<ForeignSymbolView>) -> Seq<ForeignSymbolView>
    decreases s.len(),
{
    if s.len() == 0 {
        Seq::empty()
    } else if is_type_kind(s.last().kind) {
        type_symbols(s.drop_last()).push(s.last())
    } else {
        type_symbols(s.drop_last())
    }
}

/// Unified symbol table combining Topos and foreign symbols.
#[derive(Debug)]
pub struct UnifiedSymbolTable {
    /// All Topos symbols.
    topos_symbols: SymbolTable,
    /// All foreign symbols.
    foreign_symbols: ForeignSymbols,
}

impl View for UnifiedSymbolTable {
    type V = (TableModel, Seq<ForeignSymbolView>);

    /// The Topos table and the foreign symbols.
    closed spec fn view(&self) -> (TableModel, Seq<ForeignSymbolView>) {
        (self.topos_symbols@, self.foreign_symbols@)
    }
}

/// What looking a name up gives: a Topos symbol of that name first, else
/// the first foreign symbol of that name.
pub open spec fn lookup(t: (TableModel, Seq<ForeignSymbolView>), name: Seq<char>) -> Option<UnifiedView> {
    if t.0.symbols.contains_key(name) {
        Some(UnifiedView::Topos(t.0.symbols[name]))
    } else {
        match first_named(t.1, name) {
            Some(i) => Some(UnifiedView::Foreign(t.1[i])),
            None => None,
        }
    }
}

/// What looking a type up gives: a Topos concept of that name first, else
/// the first foreign symbol of that name when it names a type.
pub open spec fn lookup_type(t: (TableModel, Seq<ForeignSymbolView>), name: Seq<char>) -> Option<UnifiedView> {
    if t.0.concepts.contains_key(name) {
        Some(UnifiedView::Topos(t.0.concepts[name]))
    } else {
        match first_named(t.1, name) {
            Some(i) => if is_type_kind(t.1[i].kind) {
                Some(UnifiedView::Foreign(t.1[i]))
            } else {
                None
            },
            None => None,
        }
    }
}

impl UnifiedSymbolTable {
    /// The names of the Topos symbols, in table order.
    pub closed spec fn symbol_names(&self) -> Seq<Seq<char>> {
        self.topos_symbols.symbols.key_seq()
    }

    /// The names of the Topos concepts, in table order.
    pub closed spec fn concept_names(&self) -> Seq<Seq<char>> {
        self.topos_symbols.concepts.key_seq()
    }

    /// Look up a symbol by name.
    ///
    /// Resolution order:
    /// 1. Local Topos symbols
    /// 2. Foreign symbols (same file)
    pub fn get(&self, name: &str) -> (r: Option<UnifiedSymbol>)
        ensures
            match r {
                Some(u) => lookup(self@, name@) == Some(u@),
                None => lookup(self@, name@) is None,
            },
    {
        match self.topos_symbols.get(name) {
            Some(sym) => Some(UnifiedSymbol::Topos(sym.clone())),
            None => match self.foreign_symbols.get(name) {
                Some(sym) => Some(UnifiedSymbol::Foreign(sym.clone())),
                None => None,
            },
        }
    }

    /// Look up a symbol as a type reference.
    ///
    /// For backtick references like `User`, this checks:
    /// 1. Topos concepts
    /// 2. Foreign types (models, interfaces, enums, etc.)
    pub fn get_type(&self, name: &str) -> (r: Option<UnifiedSymbol>)
        ensures
            match r {
                Some(u) => lookup_type(self@, name@) == Some(u@),
                None => lookup_type(self@, name@) is None,
            },
    {
        match self.topos_symbols.get_concept(name) {
            Some(sym) => Some(UnifiedSymbol::Topos(sym.clone())),
            None => match self.foreign_symbols.get(name) {
                Some(sym) => match sym.kind {
                    ForeignSymbolKind::Model
                    | ForeignSymbolKind::Interface
                    | ForeignSymbolKind::TypeAlias
                    | ForeignSymbolKind::Enum
                    | ForeignSymbolKind::Union
                    | ForeignSymbolKind::Schema => Some(UnifiedSymbol::Foreign(sym.clone())),
                    _ => None,
                },
                None => None,
            },
        }
    }

    /// Get all symbols: the Topos ones in table order, then the foreign ones.
    pub fn all_symbols(&self) -> (r: Vec<UnifiedSymbol>)
        ensures
            r@.len() == self.symbol_names().len() + self@.1.len(),
            forall|i: int|
                0 <= i < self.symbol_names().len() ==> #[trigger] r@[i]@ == UnifiedView::Topos(
                    self@.0.symbols[self.symbol_names()[i]],
                ),
            forall|i: int|
                0 <= i < self@.1.len() ==> r@[self.symbol_names().len() + i]@ == UnifiedView::Foreign(
                    #[trigger] self@.1[i],
                ),
    {
        let mut r: Vec<UnifiedSymbol> = Vec::new();
        let n = self.topos_symbols.symbols.len();
        let mut i: usize = 0;
        while i < n
            invariant
                i <= n,
                n == self.topos_symbols.symbols.entry_seq().len(),
                r@.len() == i,
                forall|j: int|
                    0 <= j < i ==> #[trigger] r@[j]@ == UnifiedView::Topos(
                        self@.0.symbols[self.topos_symbols.symbols.key_seq()[j]],
                    ),
            decreases n - i,
        {
            let v = self.topos_symbols.symbols.value_at(i);
            r.push(UnifiedSymbol::Topos(v.clone()));
            i += 1;
        }
        let m = self.foreign_symbols.symbols.len();
        let mut j: usize = 0;
        while j < m
            invariant
                j <= m,
                m == self@.1.len(),
                n == self.topos_symbols.symbols.entry_seq().len(),
                r@.len() == n + j,
                forall|k: int|
                    0 <= k < n ==> #[trigger] r@[k]@ == UnifiedView::Topos(
                        self@.0.symbols[self.topos_symbols.symbols.key_seq()[k]],
                    ),
                forall|k: int| 0 <= k < j ==> r@[n + k]@ == UnifiedView::Foreign(#[trigger] self@.1[k]),
            decreases m - j,
        {
            r.push(UnifiedSymbol::Foreign(self.foreign_symbols.symbols[j].clone()));
            j += 1;
        }
        r
    }

    /// Get all foreign symbols.
    pub fn foreign(&self) -> (r: &ForeignSymbols)
        ensures
            r@ == self@.1,
    {
        &self.foreign_symbols
    }

    /// The Topos table itself.
    pub closed spec fn topos_table(&self) -> SymbolTable {
        self.topos_symbols
    }

    /// Get all Topos symbols.
    pub fn topos(&self) -> (r: &SymbolTable)
        ensures
            r@ == self@.0,
            *r == self.topos_table(),
    {
        &self.topos_symbols
    }

    /// Get all type-like symbols for completion: the Topos concepts in table
    /// order, then the foreign symbols that name a type, in order.
    pub fn all_types(&self) -> (r: Vec<UnifiedSymbol>)
        ensures
            r@.len() == self.concept_names().len() + type_symbols(self@.1).len(),
            forall|i: int|
                0 <= i < self.concept_names().len() ==> #[trigger] r@[i]@ == UnifiedView::Topos(
                    self@.0.concepts[self.concept_names()[i]],
                ),
            forall|i: int|
                0 <= i < type_symbols(self@.1).len() ==> r@[self.concept_names().len() + i]@
                    == UnifiedView::Foreign(#[trigger] type_symbols(self@.1)[i]),
    {
        let mut r: Vec<UnifiedSymbol> = Vec::new();
        let n = self.topos_symbols.concepts.len();
        let mut i: usize = 0;
        while i < n
            invariant
                i <= n,
                n == self.topos_symbols.concepts.entry_seq().len(),
                r@.len() == i,
                forall|j: int|
                    0 <= j < i ==> #[trigger] r@[j]@ == UnifiedView::Topos(
                        self@.0.concepts[self.topos_symbols.concepts.key_seq()[j]],
                    ),
            decreases n - i,
        {
            let v = self.topos_symbols.concepts.value_at(i);
            r.push(UnifiedSymbol::Topos(v.clone()));
            i += 1;
        }
        let ghost fs = self@.1;
        let m = self.foreign_symbols.symbols.len();
        let mut j: usize = 0;
        while j < m
            invariant
                j <= m,
                m == fs.len(),
                fs == self@.1,
                n == self.topos_symbols.concepts.entry_seq().len(),
                r@.len() == n + type_symbols(fs.take(j as int)).len(),
                forall|k: int|
                    0 <= k < n ==> #[trigger] r@[k]@ == UnifiedView::Topos(
                        self@.0.concepts[self.topos_symbols.concepts.key_seq()[k]],
                    ),
                forall|k: int|
                    0 <= k < type_symbols(fs.take(j as int)).len() ==> r@[n + k]@ == UnifiedView::Foreign(
                        #[trigger] type_symbols(fs.take(j as int))[k],
                    ),
            decreases m - j,
        {
            proof {
                assert(fs.take(j + 1).drop_last() =~= fs.take(j as int));
                assert(fs.take(j + 1).last() == fs[j as int]);
            }
            let s = &self.foreign_symbols.symbols[j];
            assert(s@ == fs[j as int]);
            match s.kind {
                ForeignSymbolKind::Model
                | ForeignSymbolKind::Interface
                | ForeignSymbolKind::TypeAlias
                | ForeignSymbolKind::Enum
                | ForeignSymbolKind::Union
                | ForeignSymbolKind::Schema => {
                    r.push(UnifiedSymbol::Foreign(s.clone()));
                },
                _ => {},
            }
            j += 1;
        }
        assert(fs.take(m as int) =~= fs);
        r
    }
}

/// The table a file gives: its Topos symbols and its foreign symbols.
pub open spec fn unified_of(f: SourceFile) -> (TableModel, Seq<ForeignSymbolView>) {
    (symbols_of(f), blocks_symbols(Seq::empty(), file_blocks(f.sections@)))
}

/// Build a unified symbol table for a parsed file.
pub fn unified_symbols(ast: &SourceFile) -> (t: UnifiedSymbolTable)
    ensures
        t@ == unified_of(*ast),
{
    UnifiedSymbolTable { topos_symbols: symbols(ast), foreign_symbols: foreign_symbols(ast) }
}

/// Resolve a reference to its symbol.
///
/// Returns the resolved symbol if found, or None if unresolved.
pub fn resolve_reference(table: &UnifiedSymbolTable, name: &str) -> (r: Option<UnifiedSymbol>)
    ensures
        match r {
            Some(u) => lookup(table@, name@) == Some(u@),
            None => lookup(table@, name@) is None,
        },
{
    table.get(name)
}

/// Resolve a type reference (backtick reference).
pub fn resolve_type_reference(table: &UnifiedSymbolTable, name: &str) -> (r: Option<UnifiedSymbol>)
    ensures
        match r {
            Some(u) => lookup_type(table@, name@) == Some(u@),
            None => lookup_type(table@, name@) is None,
        },
{
    table.get_type(name)
}

} // verus!
