//! Foreign block indexing for polyglot symbol resolution.
//!
//! This module extracts symbol definitions from foreign code blocks
//! (TypeSpec, CUE, etc.) embedded in Topos specifications.
use vstd::prelude::*;

use crate::ast::{ForeignBlock, SectionContent, SourceFile};
use crate::cst::SyntaxNode;
use crate::grammars::{parse_typescript, typescript_syntax_tree};
use crate::regex_match::{captures_all, match_views, regex_captures, RegexMatch};
use crate::span::Span;
use crate::text::{
    chars_of, find, find_spec, join, joined, str_eq, string_from_range, to_lowercase, trim,
    trimmed_range, lowercased, views,
};

verus! {

/// Kinds of symbols that can be extracted from foreign blocks.
#[derive(Debug, Clone, Copy, PartialEq, Eq, Hash, Structural)]
pub enum ForeignSymbolKind {
    /// A model/struct type (TypeSpec `model`, CUE definition).
    Model,
    /// An interface type (TypeSpec `interface`).
    Interface,
    /// A type alias (TypeSpec `alias`, CUE `#`).
    TypeAlias,
    /// An enum type (TypeSpec `enum`).
    Enum,
    /// A union type (TypeSpec `union`).
    Union,
    /// A schema definition (CUE).
    Schema,
    /// A namespace/package.
    Namespace,
    /// An operation/function (TypeSpec `op`).
    Operation,
}

impl ForeignSymbolKind {
    /// Get a human-readable label for this kind.
    pub fn label(&self) -> (r: &'static str)
        ensures
            r@ == match *self {
                ForeignSymbolKind::Model => "model"@,
                ForeignSymbolKind::Interface => "interface"@,
                ForeignSymbolKind::TypeAlias => "type alias"@,
                ForeignSymbolKind::Enum => "enum"@,
                ForeignSymbolKind::Union => "union"@,
                ForeignSymbolKind::Schema => "schema"@,
                ForeignSymbolKind::Namespace => "namespace"@,
                ForeignSymbolKind::Operation => "operation"@,
            },
    {
        match self {
            ForeignSymbolKind::Model => "model",
            ForeignSymbolKind::Interface => "interface",
            ForeignSymbolKind::TypeAlias => "type alias",
            ForeignSymbolKind::Enum => "enum",
            ForeignSymbolKind::Union => "union",
            ForeignSymbolKind::Schema => "schema",
            ForeignSymbolKind::Namespace => "namespace",
            ForeignSymbolKind::Operation => "operation",
        }
    }
}

/// A symbol extracted from a foreign code block.
#[derive(Debug)]
pub struct ForeignSymbol {
    /// The symbol name (e.g., "User", "OrderStatus").
    pub name: String,
    /// The kind of foreign symbol.
    pub kind: ForeignSymbolKind,
    /// The source language (e.g., "typespec", "cue").
    pub language: String,
    /// The full declaration text (for hover display).
    pub declaration: String,
    /// Source span in the Topos file.
    pub span: Span,
    /// Offset within the foreign block where this symbol is defined.
    pub block_offset: usize,
}

impl Clone for ForeignSymbol {
    fn clone(&self) -> (r: Self)
        ensures
            r == *self,
    {
        ForeignSymbol {
            name: self.name.clone(),
            kind: self.kind,
            language: self.language.clone(),
            declaration: self.declaration.clone(),
            span: self.span,
            block_offset: self.block_offset,
        }
    }
}

/// What a foreign symbol says, its texts taken by their views.
pub struct ForeignSymbolView {
    pub name: Seq<char>,
    pub kind: ForeignSymbolKind,
    pub language: Seq<char>,
    pub declaration: Seq<char>,
    pub span: Span,
    pub block_offset: usize,
}

impl View for ForeignSymbol {
    type V = ForeignSymbolView;

    open spec fn view(&self) -> ForeignSymbolView {
        ForeignSymbolView {
            name: self.name@,
            kind: self.kind,
            language: self.language@,
            declaration: self.declaration@,
            span: self.span,
            block_offset: self.block_offset,
        }
    }
}

/// The views of a sequence of foreign symbols.
pub open spec fn symbol_views(s: Seq<ForeignSymbol>) -> Seq<ForeignSymbolView> {
    s.map_values(|x: ForeignSymbol| x@)
}

/// Collection of foreign symbols from a file.
#[derive(Debug, Clone)]
pub struct ForeignSymbols {
    /// All foreign symbols, in the order they were found.
    pub symbols: Vec<ForeignSymbol>,
}

impl View for ForeignSymbols {
    type V = Seq<ForeignSymbolView>;

    open spec fn view(&self) -> Seq<ForeignSymbolView> {
        symbol_views(self.symbols@)
    }
}

/// The index of the first symbol of `s` named `name`.
pub open spec fn first_named(s: Seq<ForeignSymbolView>, name: Seq<char>) -> Option<int> {
    if exists|i: int| 0 <= i < s.len() && s[i].name == name {
        Some(choose|i: int| 0 <= i < s.len() && s[i].name == name && forall|j: int| 0 <= j < i ==> s[j].name != name)
    } else {
        None
    }
}

/// Some symbol of `s` is named `name`.
pub open spec fn has_name(s: Seq<ForeignSymbolView>, name: Seq<char>) -> bool {
    exists|i: int| 0 <= i < s.len() && s[i].name == name
}

/// The symbols of `s` of kind `k`, in order.
pub open spec fn of_kind(s: Seq<ForeignSymbolView>, k: ForeignSymbolKind) -> Seq<ForeignSymbolView> {
    s.filter(|x: ForeignSymbolView| x.kind == k)
}

impl ForeignSymbols {
    /// Create a new empty collection.
    pub fn new() -> (r: Self)
        ensures
            r@.len() == 0,
    {
        let r = ForeignSymbols { symbols: Vec::new() };
        assert(r@ =~= Seq::<ForeignSymbolView>::empty());
        r
    }

    /// Look up a symbol by name: the first one with that name.
    pub fn get(&self, name: &str) -> (r: Option<&ForeignSymbol>)
        ensures
            match r {
                Some(x) => first_named(self@, name@) matches Some(i) && x@ == self@[i],
                None => !has_name(self@, name@),
            },
    {
        let mut i: usize = 0;
        while i < self.symbols.len()
            invariant
                i <= self.symbols@.len(),
                forall|j: int| 0 <= j < i ==> self@[j].name != name@,
            decreases self.symbols.len() - i,
        {
            if str_eq(self.symbols[i].name.as_str(), name) {
                proof {
                    assert(self@[i as int].name == name@);
                    let k = choose|k: int|
                        0 <= k < self@.len() && self@[k].name == name@ && forall|j: int|
                            0 <= j < k ==> self@[j].name != name@;
                    assert(0 <= i < self@.len() && self@[i as int].name == name@ && forall|j: int|
                        0 <= j < i ==> self@[j].name != name@);
                    if k < i {
                    } else if k > i {
                    }
                }
                return Some(&self.symbols[i]);
            }
            i += 1;
        }
        None
    }

    /// Get all symbols of a specific kind, in order.
    pub fn by_kind(&self, kind: ForeignSymbolKind) -> (r: Vec<&ForeignSymbol>)
        ensures
            symbol_views(r@.map_values(|x: &ForeignSymbol| *x)) == of_kind(self@, kind),
    {
        let ghost all = self@;
        let mut r: Vec<&ForeignSymbol> = Vec::new();
        let mut i: usize = 0;
        while i < self.symbols.len()
            invariant
                i <= self.symbols@.len(),
                all == self@,
                symbol_views(r@.map_values(|x: &ForeignSymbol| *x)) == all.take(i as int).filter(
                    |x: ForeignSymbolView| x.kind == kind,
                ),
            decreases self.symbols.len() - i,
        {
            proof {
                crate::text::lemma_filter_take_push(all, |x: ForeignSymbolView| x.kind == kind, i as int);
            }
            let ghost r0 = r@;
            if self.symbols[i].kind == kind {
                r.push(&self.symbols[i]);
                assert(r@.map_values(|x: &ForeignSymbol| *x) =~= r0.map_values(|x: &ForeignSymbol| *x).push(self.symbols@[i as int]));
                assert(symbol_views(r@.map_values(|x: &ForeignSymbol| *x)) =~= symbol_views(r0.map_values(|x: &ForeignSymbol| *x)).push(all[i as int]));
            }
            i += 1;
        }
        assert(all.take(self.symbols@.len() as int) =~= all);
        r
    }

    /// Get all symbols from a specific language, in order.
    pub fn by_language(&self, lang: &str) -> (r: Vec<&ForeignSymbol>)
        ensures
            symbol_views(r@.map_values(|x: &ForeignSymbol| *x)) == self@.filter(
                |x: ForeignSymbolView| x.language == lang@,
            ),
    {
        let ghost all = self@;
        let ghost l = lang@;
        let mut r: Vec<&ForeignSymbol> = Vec::new();
        let mut i: usize = 0;
        while i < self.symbols.len()
            invariant
                i <= self.symbols@.len(),
                all == self@,
                l == lang@,
                symbol_views(r@.map_values(|x: &ForeignSymbol| *x)) == all.take(i as int).filter(
                    |x: ForeignSymbolView| x.language == l,
                ),
            decreases self.symbols.len() - i,
        {
            proof {
                crate::text::lemma_filter_take_push(all, |x: ForeignSymbolView| x.language == l, i as int);
            }
            let ghost r0 = r@;
            if str_eq(self.symbols[i].language.as_str(), lang) {
                r.push(&self.symbols[i]);
                assert(r@.map_values(|x: &ForeignSymbol| *x) =~= r0.map_values(|x: &ForeignSymbol| *x).push(self.symbols@[i as int]));
                assert(symbol_views(r@.map_values(|x: &ForeignSymbol| *x)) =~= symbol_views(r0.map_values(|x: &ForeignSymbol| *x)).push(all[i as int]));
            }
            i += 1;
        }
        assert(all.take(self.symbols@.len() as int) =~= all);
        r
    }
}

// ============================================================================
// Text measured in UTF-8 bytes
// ============================================================================

/// The number of bytes UTF-8 takes for `c`.
pub open spec fn char_len(c: char) -> int {
    let u = c as u32;
    if u < 0x80 {
        1
    } else if u < 0x800 {
        2
    } else if u < 0x10000 {
        3
    } else {
        4
    }
}

/// The number of bytes UTF-8 takes for `s`.
pub open spec fn utf8_len(s: Seq<char>) -> int
    decreases s.len(),
{
    if s.len() == 0 {
        0
    } else {
        utf8_len(s.drop_last()) + char_len(s.last())
    }
}

/// The character index at which byte offset `off` of `s` starts, when it
/// falls on a character boundary.
pub open spec fn char_index_at(s: Seq<char>, off: int) -> Option<int>
    decreases s.len(),
{
    if off == 0 {
        Some(0)
    } else if s.len() == 0 || char_len(s[0]) > off {
        None
    } else {
        match char_index_at(s.drop_first(), off - char_len(s[0])) {
            Some(k) => Some(k + 1),
            None => None,
        }
    }
}

/// How many leading characters of `t` fit in `b` bytes.
pub open spec fn fit_count(t: Seq<char>, b: int) -> int
    decreases t.len(),
{
    if t.len() == 0 || char_len(t[0]) > b {
        0
    } else {
        1 + fit_count(t.drop_first(), b - char_len(t[0]))
    }
}

/// A declaration for display: trimmed, and past 100 bytes cut to the
/// characters that fit in 97 bytes, with `...` after them.
pub open spec fn truncated(d: Seq<char>) -> Seq<char> {
    let t = trim(d);
    if utf8_len(t) > 100 {
        t.take(fit_count(t, 97)) + "..."@
    } else {
        t
    }
}

/// The declaration that starts at byte `off` of `content`: up to the first
/// newline (else the first `{`, else the end), for display.
pub open spec fn declaration_line(content: Seq<char>, off: int) -> Seq<char> {
    match char_index_at(content, off) {
        Some(k) => {
            let r = content.skip(k);
            let end = match find_spec(r, "\n"@) {
                Some(e) => e,
                None => match find_spec(r, "{"@) {
                    Some(b) => b,
                    None => r.len() as int,
                },
            };
            truncated(r.take(end))
        },
        None => Seq::empty(),
    }
}

/// A point `off` bytes into a block: the block's start moved by `off`
/// (wrapping at `u32`), with the block's start line and column.
pub open spec fn offset_span(base: Span, off: usize) -> Span {
    let o = off as u32;
    let start = if base.start + o > u32::MAX {
        (base.start + o - 0x1_0000_0000) as u32
    } else {
        (base.start + o) as u32
    };
    Span {
        start,
        end: start,
        start_line: base.start_line,
        start_col: base.start_col,
        end_line: base.start_line,
        end_col: base.start_col,
    }
}

/// The number of bytes UTF-8 takes for `c`.
pub(crate) fn char_byte_len(c: char) -> (n: usize)
    ensures
        n == char_len(c),
{
    let u = c as u32;
    if u < 0x80 {
        1
    } else if u < 0x800 {
        2
    } else if u < 0x10000 {
        3
    } else {
        4
    }
}

/// The number of bytes UTF-8 takes for the characters of `v`, capped at `cap`.
fn utf8_len_capped(v: &Vec<char>, cap: usize) -> (n: usize)
    requires
        cap < usize::MAX,
    ensures
        n <= cap ==> n == utf8_len(v@),
        n > cap ==> utf8_len(v@) > cap,
{
    let mut total: usize = 0;
    let mut i: usize = 0;
    while i < v.len()
        invariant
            i <= v@.len(),
            cap < usize::MAX,
            total <= cap,
            total == utf8_len(v@.take(i as int)),
        decreases v.len() - i,
    {
        assert(v@.take(i + 1).drop_last() =~= v@.take(i as int));
        let l = char_byte_len(v[i]);
        if l > cap - total {
            proof {
                lemma_utf8_len_grows(v@, i + 1);
            }
            return cap + 1;
        }
        total = total + l;
        i += 1;
    }
    assert(v@.take(v@.len() as int) =~= v@);
    total
}

/// Longer prefixes take at least as many bytes.
proof fn lemma_utf8_len_grows(s: Seq<char>, k: int)
    requires
        0 <= k <= s.len(),
    ensures
        utf8_len(s.take(k)) <= utf8_len(s),
    decreases s.len() - k,
{
    if k < s.len() {
        lemma_utf8_len_grows(s, k + 1);
        assert(s.take(k + 1).drop_last() =~= s.take(k));
    } else {
        assert(s.take(k) =~= s);
    }
}

/// How many leading characters of `v` fit in `budget` bytes.
fn fit_prefix(v: &Vec<char>, budget: usize) -> (k: usize)
    ensures
        k == fit_count(v@, budget as int),
        k <= v@.len(),
{
    let ghost tt = v@;
    let mut i: usize = 0;
    let mut left: usize = budget;
    assert(tt.skip(0) =~= tt);
    while i < v.len() && char_byte_len(v[i]) <= left
        invariant
            i <= tt.len(),
            tt == v@,
            left <= budget,
            fit_count(tt, budget as int) == i + fit_count(tt.skip(i as int), left as int),
        decreases v.len() - i,
    {
        assert(tt.skip(i as int)[0] == tt[i as int]);
        assert(tt.skip(i as int).drop_first() =~= tt.skip(i + 1));
        left = left - char_byte_len(v[i]);
        i += 1;
    }
    proof {
        if i < tt.len() {
            assert(tt.skip(i as int)[0] == tt[i as int]);
        }
    }
    i
}

/// Truncate a declaration to a reasonable display length.
fn truncate_declaration(decl: &str) -> (r: String)
    ensures
        r@ == truncated(decl@),
{
    let v = chars_of(decl);
    let t = trimmed_range(&v, 0, v.len());
    assert(v@.subrange(0, v@.len() as int) =~= v@);
    let tv = chars_of(t.as_str());
    let n = utf8_len_capped(&tv, 100);
    if n > 100 {
        let k = fit_prefix(&tv, 97);
        let mut r = string_from_range(&tv, 0, k);
        crate::text::push_str(&mut r, "...");
        assert(tv@.subrange(0, k as int) =~= tv@.take(k as int));
        r
    } else {
        t
    }
}

/// The character index at which byte offset `off` of `v` starts, if it is a boundary.
fn char_index_of_byte(v: &Vec<char>, off: usize) -> (r: Option<usize>)
    ensures
        match r {
            Some(k) => char_index_at(v@, off as int) == Some(k as int) && k <= v@.len(),
            None => char_index_at(v@, off as int) is None,
        },
{
    let ghost s = v@;
    let mut i: usize = 0;
    let mut left: usize = off;
    assert(s.skip(0) =~= s);
    while left > 0 && i < v.len() && char_byte_len(v[i]) <= left
        invariant
            i <= s.len(),
            s == v@,
            left <= off,
            char_index_at(s, off as int) == match char_index_at(s.skip(i as int), left as int) {
                Some(k) => Some(k + i),
                None => None,
            },
        decreases v.len() - i,
    {
        assert(s.skip(i as int)[0] == s[i as int]);
        assert(s.skip(i as int).drop_first() =~= s.skip(i + 1));
        left = left - char_byte_len(v[i]);
        i += 1;
    }
    if left == 0 {
        Some(i)
    } else {
        proof {
            if i < s.len() {
                assert(s.skip(i as int)[0] == s[i as int]);
            }
        }
        None
    }
}

/// Extract the declaration line from content at a byte offset.
fn extract_declaration_line(content: &str, offset: usize) -> (r: String)
    ensures
        r@ == declaration_line(content@, offset as int),
{
    proof {
        reveal_strlit("\n");
        reveal_strlit("{");
    }
    let v = chars_of(content);
    match char_index_of_byte(&v, offset) {
        Some(k) => {
            let rest_s = string_from_range(&v, k, v.len());
            let rest = chars_of(rest_s.as_str());
            assert(rest@ =~= content@.skip(k as int));
            let nl: Vec<char> = vec!['\n'];
            assert(nl@ =~= "\n"@);
            let brace: Vec<char> = vec!['{'];
            assert(brace@ =~= "{"@);
            let end = match find(&rest, &nl) {
                Some(e) => e,
                None => match find(&rest, &brace) {
                    Some(b) => b,
                    None => rest.len(),
                },
            };
            proof {
                if let Some(e) = find_spec(rest@, "\n"@) {
                    assert(end == e);
                } else if let Some(b) = find_spec(rest@, "{"@) {
                    assert(end == b);
                }
            }
            let line = string_from_range(&rest, 0, end);
            assert(line@ =~= rest@.take(end as int));
            truncate_declaration(line.as_str())
        },
        None => String::new(),
    }
}

/// A point `offset` bytes into a block.
fn offset_span_of(base: Span, offset: usize) -> (s: Span)
    ensures
        s == offset_span(base, offset),
{
    let o = offset as u32;
    let start = base.start.wrapping_add(o);
    Span {
        start,
        end: start,
        start_line: base.start_line,
        start_col: base.start_col,
        end_line: base.start_line,
        end_col: base.start_col,
    }
}

// ============================================================================
// Symbols found by patterns
// ============================================================================

/// The symbol a pattern match gives: named by its first group, declared by
/// the line at its start.
pub open spec fn hit_symbol(
    h: (usize, Option<Seq<char>>, Option<Seq<char>>),
    kind: ForeignSymbolKind,
    lang: Seq<char>,
    content: Seq<char>,
    span: Span,
) -> ForeignSymbolView {
    ForeignSymbolView {
        name: match h.1 {
            Some(g) => g,
            None => Seq::empty(),
        },
        kind,
        language: lang,
        declaration: declaration_line(content, h.0 as int),
        span: offset_span(span, h.0),
        block_offset: h.0,
    }
}

/// `syms` with the symbols of the matches `hits` added in order; with
/// `dedupe`, a match whose name is already present adds nothing.
pub open spec fn add_hits(
    syms: Seq<ForeignSymbolView>,
    hits: Seq<(usize, Option<Seq<char>>, Option<Seq<char>>)>,
    kind: ForeignSymbolKind,
    lang: Seq<char>,
    content: Seq<char>,
    span: Span,
    dedupe: bool,
) -> Seq<ForeignSymbolView>
    decreases hits.len(),
{
    if hits.len() == 0 {
        syms
    } else {
        let prev = add_hits(syms, hits.drop_last(), kind, lang, content, span, dedupe);
        let x = hit_symbol(hits.last(), kind, lang, content, span);
        if dedupe && has_name(prev, x.name) {
            prev
        } else {
            prev.push(x)
        }
    }
}

/// `syms` with the symbols that `pattern` finds in `content` added.
pub open spec fn add_pattern(
    syms: Seq<ForeignSymbolView>,
    pattern: Seq<char>,
    kind: ForeignSymbolKind,
    lang: Seq<char>,
    content: Seq<char>,
    span: Span,
    dedupe: bool,
) -> Seq<ForeignSymbolView> {
    add_hits(syms, regex_captures(pattern, content), kind, lang, content, span, dedupe)
}

/// Whether a symbol of `symbols` is named `name`.
fn has_symbol(symbols: &ForeignSymbols, name: &str) -> (b: bool)
    ensures
        b == has_name(symbols@, name@),
{
    let mut i: usize = 0;
    while i < symbols.symbols.len()
        invariant
            i <= symbols.symbols@.len(),
            forall|j: int| 0 <= j < i ==> symbols@[j].name != name@,
        decreases symbols.symbols.len() - i,
    {
        if str_eq(symbols.symbols[i].name.as_str(), name) {
            assert(symbols@[i as int].name == name@);
            return true;
        }
        i += 1;
    }
    false
}

/// Add a symbol for each of the matches `caps` (found in `content`), named by
/// its first group and declared by the line where its match starts; with
/// `dedupe`, a name already present is not added again.
pub fn add_match_symbols(
    caps: &Vec<RegexMatch>,
    kind: ForeignSymbolKind,
    content: &str,
    language: &str,
    span: Span,
    dedupe: bool,
    symbols: &mut ForeignSymbols,
)
    ensures
        final(symbols)@ == add_hits(old(symbols)@, match_views(caps@), kind, language@, content@, span, dedupe),
{
    let ghost hits = match_views(caps@);
    let ghost s0 = symbols@;
    let mut i: usize = 0;
    assert(hits.take(0) =~= Seq::<(usize, Option<Seq<char>>, Option<Seq<char>>)>::empty());
    while i < caps.len()
        invariant
            i <= caps@.len(),
            hits == match_views(caps@),
            symbols@ == add_hits(s0, hits.take(i as int), kind, language@, content@, span, dedupe),
        decreases caps.len() - i,
    {
        proof {
            assert(hits.take(i + 1).drop_last() =~= hits.take(i as int));
            assert(hits.take(i + 1).last() == hits[i as int]);
        }
        let m: &RegexMatch = &caps[i];
        let name = match &m.group1 {
            Some(g) => g.clone(),
            None => String::new(),
        };
        if !(dedupe && has_symbol(symbols, name.as_str())) {
            let x = ForeignSymbol {
                name,
                kind,
                language: language.to_owned(),
                declaration: extract_declaration_line(content, m.start),
                span: offset_span_of(span, m.start),
                block_offset: m.start,
            };
            let ghost before = symbols@;
            symbols.symbols.push(x);
            assert(symbols@ =~= before.push(x@));
        }
        i += 1;
    }
    assert(hits.take(caps@.len() as int) =~= hits);
}

/// Add the symbols that `pattern` finds in `content`, each named by its
/// first group and declared by the line where its match starts.
fn add_pattern_symbols(
    pattern: &str,
    kind: ForeignSymbolKind,
    content: &str,
    language: &str,
    span: Span,
    dedupe: bool,
    symbols: &mut ForeignSymbols,
)
    ensures
        final(symbols)@ == add_pattern(old(symbols)@, pattern@, kind, language@, content@, span, dedupe),
{
    let caps = captures_all(pattern, content);
    add_match_symbols(&caps, kind, content, language, span, dedupe, symbols);
}

/// Extract TypeSpec-specific constructs using patterns.
///
/// TypeSpec has constructs like `model`, `op`, `namespace` that aren't
/// valid TypeScript, so patterns stand in for a grammar; a name already
/// found is not added again.
fn extract_typespec_regex(content: &str, language: &str, span: Span, symbols: &mut ForeignSymbols)
    ensures
        final(symbols)@ == typespec_pattern_symbols(old(symbols)@, content@, language@, span),
{
    add_pattern_symbols("(?m)^[ \\t]*model\\s+(\\w+)", ForeignSymbolKind::Model, content, language, span, true, symbols);
    add_pattern_symbols("(?m)^[ \\t]*op\\s+(\\w+)\\s*\\(", ForeignSymbolKind::Operation, content, language, span, true, symbols);
    add_pattern_symbols("(?m)^[ \\t]*namespace\\s+(\\w+)", ForeignSymbolKind::Namespace, content, language, span, true, symbols);
    add_pattern_symbols("(?m)^[ \\t]*union\\s+(\\w+)", ForeignSymbolKind::Union, content, language, span, true, symbols);
    add_pattern_symbols("(?m)^[ \\t]*alias\\s+(\\w+)\\s*=", ForeignSymbolKind::TypeAlias, content, language, span, true, symbols);
    add_pattern_symbols("(?m)^[ \\t]*enum\\s+(\\w+)", ForeignSymbolKind::Enum, content, language, span, true, symbols);
}

/// The symbols the TypeSpec patterns add: models, operations, namespaces,
/// unions, aliases and enums, in that order, each name once.
pub open spec fn typespec_pattern_symbols(
    syms: Seq<ForeignSymbolView>,
    content: Seq<char>,
    lang: Seq<char>,
    span: Span,
) -> Seq<ForeignSymbolView> {
    let s1 = add_pattern(syms, "(?m)^[ \\t]*model\\s+(\\w+)"@, ForeignSymbolKind::Model, lang, content, span, true);
    let s2 = add_pattern(s1, "(?m)^[ \\t]*op\\s+(\\w+)\\s*\\("@, ForeignSymbolKind::Operation, lang, content, span, true);
    let s3 = add_pattern(s2, "(?m)^[ \\t]*namespace\\s+(\\w+)"@, ForeignSymbolKind::Namespace, lang, content, span, true);
    let s4 = add_pattern(s3, "(?m)^[ \\t]*union\\s+(\\w+)"@, ForeignSymbolKind::Union, lang, content, span, true);
    let s5 = add_pattern(s4, "(?m)^[ \\t]*alias\\s+(\\w+)\\s*="@, ForeignSymbolKind::TypeAlias, lang, content, span, true);
    add_pattern(s5, "(?m)^[ \\t]*enum\\s+(\\w+)"@, ForeignSymbolKind::Enum, lang, content, span, true)
}

/// The symbols the CUE patterns add: `#Name:` definitions as schemas,
/// capitalised `Name: {` fields as models, and `package` names.
pub open spec fn cue_symbols(
    syms: Seq<ForeignSymbolView>,
    content: Seq<char>,
    lang: Seq<char>,
    span: Span,
) -> Seq<ForeignSymbolView> {
    let s1 = add_pattern(syms, "(?m)^[ \\t]*(#\\w+)\\s*:"@, ForeignSymbolKind::Schema, lang, content, span, false);
    let s2 = add_pattern(s1, "(?m)^[ \\t]*([A-Z]\\w*)\\s*:\\s*\\{"@, ForeignSymbolKind::Model, lang, content, span, false);
    add_pattern(s2, "(?m)^[ \\t]*package\\s+(\\w+)"@, ForeignSymbolKind::Namespace, lang, content, span, false)
}

/// The symbols the generic patterns add: type-like declarations as models,
/// then enums whose name is new.
pub open spec fn generic_symbols(
    syms: Seq<ForeignSymbolView>,
    content: Seq<char>,
    lang: Seq<char>,
    span: Span,
) -> Seq<ForeignSymbolView> {
    let s1 = add_pattern(syms, "(?m)^[ \\t]*(?:type|struct|class|interface|model|message)\\s+(\\w+)"@, ForeignSymbolKind::Model, lang, content, span, false);
    add_pattern(s1, "(?m)^[ \\t]*enum\\s+(\\w+)"@, ForeignSymbolKind::Enum, lang, content, span, true)
}

/// Extract symbols from CUE code using patterns.
fn extract_cue_symbols(content: &str, language: &str, span: Span, symbols: &mut ForeignSymbols)
    ensures
        final(symbols)@ == cue_symbols(old(symbols)@, content@, language@, span),
{
    add_pattern_symbols("(?m)^[ \\t]*(#\\w+)\\s*:", ForeignSymbolKind::Schema, content, language, span, false, symbols);
    add_pattern_symbols("(?m)^[ \\t]*([A-Z]\\w*)\\s*:\\s*\\{", ForeignSymbolKind::Model, content, language, span, false, symbols);
    add_pattern_symbols("(?m)^[ \\t]*package\\s+(\\w+)", ForeignSymbolKind::Namespace, content, language, span, false, symbols);
}

/// Generic symbol extraction for unknown languages.
///
/// Finds common patterns like `type Name`, `struct Name`, etc.
fn extract_generic_symbols(content: &str, language: &str, span: Span, symbols: &mut ForeignSymbols)
    ensures
        final(symbols)@ == generic_symbols(old(symbols)@, content@, language@, span),
{
    add_pattern_symbols("(?m)^[ \\t]*(?:type|struct|class|interface|model|message)\\s+(\\w+)", ForeignSymbolKind::Model, content, language, span, false, symbols);
    add_pattern_symbols("(?m)^[ \\t]*enum\\s+(\\w+)", ForeignSymbolKind::Enum, content, language, span, true, symbols);
}

// ============================================================================
// Symbols found in a TypeScript tree
// ============================================================================

/// The symbol kind of a top-level TypeScript declaration kind.
pub open spec fn ts_kind(k: Seq<char>) -> Option<ForeignSymbolKind> {
    if k == "interface_declaration"@ {
        Some(ForeignSymbolKind::Interface)
    } else if k == "type_alias_declaration"@ {
        Some(ForeignSymbolKind::TypeAlias)
    } else if k == "enum_declaration"@ {
        Some(ForeignSymbolKind::Enum)
    } else if k == "class_declaration"@ {
        Some(ForeignSymbolKind::Model)
    } else {
        None
    }
}

/// The first child of `cs` under field `name`.
pub open spec fn field_child(cs: Seq<SyntaxNode>, name: Seq<char>) -> Option<SyntaxNode>
    decreases cs.len(),
{
    if cs.len() == 0 {
        None
    } else if cs[0].field matches Some(f) && f@ == name {
        Some(cs[0])
    } else {
        field_child(cs.drop_first(), name)
    }
}

/// `syms` with the symbols of the top-level declarations `cs` added: each
/// interface, type alias, enum and class that has a name.
pub open spec fn ts_symbols(
    syms: Seq<ForeignSymbolView>,
    cs: Seq<SyntaxNode>,
    lang: Seq<char>,
    span: Span,
) -> Seq<ForeignSymbolView>
    decreases cs.len(),
{
    if cs.len() == 0 {
        syms
    } else {
        let prev = ts_symbols(syms, cs.drop_last(), lang, span);
        let c = cs.last();
        match (ts_kind(c.kind@), field_child(c.children@, "name"@)) {
            (Some(k), Some(n)) => prev.push(
                ForeignSymbolView {
                    name: n.text@,
                    kind: k,
                    language: lang,
                    declaration: truncated(c.text@),
                    span: offset_span(span, c.span.start as usize),
                    block_offset: c.span.start as usize,
                },
            ),
            _ => prev,
        }
    }
}

/// The symbols a TypeScript parse of `content` adds (none without a tree).
pub open spec fn typescript_symbols(
    syms: Seq<ForeignSymbolView>,
    content: Seq<char>,
    lang: Seq<char>,
    span: Span,
) -> Seq<ForeignSymbolView> {
    match typescript_syntax_tree(content) {
        Some(t) => ts_symbols(syms, t.children@, lang, span),
        None => syms,
    }
}

/// The first child of `node` under field `name`.
fn find_field_child<'a>(node: &'a SyntaxNode, name: &str) -> (r: Option<&'a SyntaxNode>)
    ensures
        match r {
            Some(c) => field_child(node.children@, name@) == Some(*c),
            None => field_child(node.children@, name@) is None,
        },
{
    let ghost cs = node.children@;
    let mut j: usize = 0;
    assert(cs.skip(0) =~= cs);
    while j < node.children.len()
        invariant
            j <= cs.len(),
            cs == node.children@,
            field_child(cs, name@) == field_child(cs.skip(j as int), name@),
        decreases node.children.len() - j,
    {
        let c = &node.children[j];
        assert(cs.skip(j as int)[0] == *c);
        assert(cs.skip(j as int).drop_first() =~= cs.skip(j + 1));
        match &c.field {
            Some(f) => {
                if str_eq(f.as_str(), name) {
                    return Some(c);
                }
            },
            None => {},
        }
        j += 1;
    }
    None
}

/// The symbol kind of a top-level TypeScript declaration kind.
fn ts_kind_of(k: &str) -> (r: Option<ForeignSymbolKind>)
    ensures
        r == ts_kind(k@),
{
    if str_eq(k, "interface_declaration") {
        Some(ForeignSymbolKind::Interface)
    } else if str_eq(k, "type_alias_declaration") {
        Some(ForeignSymbolKind::TypeAlias)
    } else if str_eq(k, "enum_declaration") {
        Some(ForeignSymbolKind::Enum)
    } else if str_eq(k, "class_declaration") {
        Some(ForeignSymbolKind::Model)
    } else {
        None
    }
}

/// Extract symbols from a TypeScript parse tree: each top-level interface,
/// type alias, enum and class (taken as a model) that has a name.
pub fn extract_from_typescript_tree(
    root: &SyntaxNode,
    language: &str,
    base_span: Span,
    symbols: &mut ForeignSymbols,
)
    ensures
        final(symbols)@ == ts_symbols(old(symbols)@, root.children@, language@, base_span),
{
    let ghost cs = root.children@;
    let ghost s0 = symbols@;
    let mut i: usize = 0;
    assert(cs.take(0) =~= Seq::<SyntaxNode>::empty());
    while i < root.children.len()
        invariant
            i <= cs.len(),
            cs == root.children@,
            symbols@ == ts_symbols(s0, cs.take(i as int), language@, base_span),
        decreases root.children.len() - i,
    {
        proof {
            assert(cs.take(i + 1).drop_last() =~= cs.take(i as int));
            assert(cs.take(i + 1).last() == cs[i as int]);
        }
        let child = &root.children[i];
        match ts_kind_of(child.kind.as_str()) {
            Some(kind) => match find_field_child(child, "name") {
                Some(name_node) => {
                    let start = child.span.start as usize;
                    let x = ForeignSymbol {
                        name: name_node.text.clone(),
                        kind,
                        language: language.to_owned(),
                        declaration: truncate_declaration(child.text.as_str()),
                        span: offset_span_of(base_span, start),
                        block_offset: start,
                    };
                    let ghost before = symbols@;
                    symbols.symbols.push(x);
                    assert(symbols@ =~= before.push(x@));
                },
                None => {},
            },
            None => {},
        }
        i += 1;
    }
    assert(cs.take(cs.len() as int) =~= cs);
}

/// Extract symbols from TypeScript code, parsed with tree-sitter's
/// TypeScript grammar.
fn extract_typescript_symbols(content: &str, language: &str, span: Span, symbols: &mut ForeignSymbols)
    ensures
        final(symbols)@ == typescript_symbols(old(symbols)@, content@, language@, span),
{
    match parse_typescript(content) {
        Some(tree) => extract_from_typescript_tree(&tree, language, span, symbols),
        None => {},
    }
}

/// Extract symbols from TypeSpec code: what a TypeScript parse finds, then
/// the TypeSpec patterns.
fn extract_typespec_symbols(content: &str, language: &str, span: Span, symbols: &mut ForeignSymbols)
    ensures
        final(symbols)@ == typespec_pattern_symbols(
            typescript_symbols(old(symbols)@, content@, language@, span),
            content@,
            language@,
            span,
        ),
{
    extract_typescript_symbols(content, language, span, symbols);
    extract_typespec_regex(content, language, span, symbols);
}

// ============================================================================
// Blocks and files
// ============================================================================

/// The text of a foreign block: its paragraphs joined by newlines.
pub open spec fn block_content(b: ForeignBlock) -> Seq<char> {
    join(b.content@.map_values(|p: crate::ast::Prose| p.text@), "\n"@)
}

/// `syms` with the symbols of block `b` added, by the extractor its
/// lower-cased language picks.
pub open spec fn block_symbols(syms: Seq<ForeignSymbolView>, b: ForeignBlock) -> Seq<ForeignSymbolView> {
    let content = block_content(b);
    let lang = lowercased(b.language@);
    if lang == "typespec"@ || lang == "tsp"@ {
        typespec_pattern_symbols(typescript_symbols(syms, content, lang, b.span), content, lang, b.span)
    } else if lang == "cue"@ {
        cue_symbols(syms, content, lang, b.span)
    } else if lang == "typescript"@ || lang == "ts"@ {
        typescript_symbols(syms, content, lang, b.span)
    } else {
        generic_symbols(syms, content, lang, b.span)
    }
}

/// Extract symbols from a single foreign block.
pub fn extract_from_block(block: &ForeignBlock, symbols: &mut ForeignSymbols)
    ensures
        final(symbols)@ == block_symbols(old(symbols)@, *block),
{
    let mut texts: Vec<String> = Vec::new();
    let mut i: usize = 0;
    while i < block.content.len()
        invariant
            i <= block.content@.len(),
            views(texts@) == block.content@.take(i as int).map_values(|p: crate::ast::Prose| p.text@),
        decreases block.content.len() - i,
    {
        let ghost t0 = texts@;
        texts.push(block.content[i].text.clone());
        assert(views(texts@) =~= views(t0).push(block.content@[i as int].text@));
        assert(block.content@.take(i + 1).map_values(|p: crate::ast::Prose| p.text@) =~= block.content@.take(i as int).map_values(|p: crate::ast::Prose| p.text@).push(block.content@[i as int].text@));
        i += 1;
    }
    assert(block.content@.take(block.content@.len() as int) =~= block.content@);
    let content = joined(&texts, "\n");
    let language = to_lowercase(block.language.as_str());
    let l = language.as_str();
    if str_eq(l, "typespec") || str_eq(l, "tsp") {
        extract_typespec_symbols(content.as_str(), l, block.span, symbols);
    } else if str_eq(l, "cue") {
        extract_cue_symbols(content.as_str(), l, block.span, symbols);
    } else if str_eq(l, "typescript") || str_eq(l, "ts") {
        extract_typescript_symbols(content.as_str(), l, block.span, symbols);
    } else {
        extract_generic_symbols(content.as_str(), l, block.span, symbols);
    }
}

/// The foreign blocks of a section's elements, in order.
pub open spec fn content_blocks(cs: Seq<SectionContent>) -> Seq<ForeignBlock>
    decreases cs.len(),
{
    if cs.len() == 0 {
        Seq::empty()
    } else {
        content_blocks(cs.drop_last()) + match cs.last() {
            SectionContent::ForeignBlock(b) => seq![b],
            _ => Seq::empty(),
        }
    }
}

/// `syms` with the symbols of the blocks `bs` added, in order.
pub open spec fn blocks_symbols(syms: Seq<ForeignSymbolView>, bs: Seq<ForeignBlock>) -> Seq<ForeignSymbolView>
    decreases bs.len(),
{
    if bs.len() == 0 {
        syms
    } else {
        block_symbols(blocks_symbols(syms, bs.drop_last()), bs.last())
    }
}

/// The foreign blocks of a file, section by section.
pub open spec fn file_blocks(ss: Seq<crate::ast::Section>) -> Seq<ForeignBlock>
    decreases ss.len(),
{
    if ss.len() == 0 {
        Seq::empty()
    } else {
        file_blocks(ss.drop_last()) + content_blocks(ss.last().contents@)
    }
}

/// Adding the blocks of two runs one after the other adds those of both.
proof fn lemma_blocks_concat(syms: Seq<ForeignSymbolView>, a: Seq<ForeignBlock>, b: Seq<ForeignBlock>)
    ensures
        blocks_symbols(syms, a + b) == blocks_symbols(blocks_symbols(syms, a), b),
    decreases b.len(),
{
    if b.len() == 0 {
        assert(a + b =~= a);
    } else {
        lemma_blocks_concat(syms, a, b.drop_last());
        assert((a + b).drop_last() =~= a + b.drop_last());
        assert((a + b).last() == b.last());
    }
}

/// Extract foreign symbols from a parsed file: the symbols of its foreign
/// blocks, section by section, in order.
pub fn foreign_symbols(ast: &SourceFile) -> (r: ForeignSymbols)
    ensures
        r@ == blocks_symbols(Seq::empty(), file_blocks(ast.sections@)),
{
    let mut symbols = ForeignSymbols::new();
    let ghost ss = ast.sections@;
    let mut i: usize = 0;
    assert(ss.take(0) =~= Seq::<crate::ast::Section>::empty());
    while i < ast.sections.len()
        invariant
            i <= ss.len(),
            ss == ast.sections@,
            symbols@ == blocks_symbols(Seq::empty(), file_blocks(ss.take(i as int))),
        decreases ast.sections.len() - i,
    {
        proof {
            assert(ss.take(i + 1).drop_last() =~= ss.take(i as int));
            assert(ss.take(i + 1).last() == ss[i as int]);
        }
        let section = &ast.sections[i];
        let ghost cs = section.contents@;
        let ghost before = file_blocks(ss.take(i as int));
        let mut j: usize = 0;
        assert(cs.take(0) =~= Seq::<SectionContent>::empty());
        assert(before + content_blocks(cs.take(0)) =~= before);
        while j < section.contents.len()
            invariant
                j <= cs.len(),
                cs == section.contents@,
                symbols@ == blocks_symbols(Seq::empty(), before + content_blocks(cs.take(j as int))),
            decreases section.contents.len() - j,
        {
            proof {
                assert(cs.take(j + 1).drop_last() =~= cs.take(j as int));
                assert(cs.take(j + 1).last() == cs[j as int]);
            }
            match &section.contents[j] {
                SectionContent::ForeignBlock(block) => {
                    extract_from_block(block, &mut symbols);
                    proof {
                        let p = before + content_blocks(cs.take(j as int));
                        assert(before + content_blocks(cs.take(j + 1)) =~= p.push(*block));
                        assert(p.push(*block).drop_last() =~= p);
                    }
                },
                _ => {
                    proof {
                        assert(content_blocks(cs.take(j + 1)) =~= content_blocks(cs.take(j as int)));
                    }
                },
            }
            j += 1;
        }
        assert(cs.take(cs.len() as int) =~= cs);
        i += 1;
    }
    assert(ss.take(ss.len() as int) =~= ss);
    symbols
}

/// The lists `by_kind` gives for the eight kinds partition the symbols: a
/// symbol is listed under its own kind and under no other, and the eight
/// lists together are exactly as long as the whole.
pub proof fn kinds_partition_symbols(s: Seq<ForeignSymbolView>)
    ensures
        forall|x: ForeignSymbolView, k: ForeignSymbolKind|
            #[trigger] of_kind(s, k).contains(x) <==> (s.contains(x) && x.kind == k),
        of_kind(s, ForeignSymbolKind::Model).len() + of_kind(s, ForeignSymbolKind::Interface).len()
            + of_kind(s, ForeignSymbolKind::TypeAlias).len() + of_kind(s, ForeignSymbolKind::Enum).len()
            + of_kind(s, ForeignSymbolKind::Union).len() + of_kind(s, ForeignSymbolKind::Schema).len()
            + of_kind(s, ForeignSymbolKind::Namespace).len() + of_kind(s, ForeignSymbolKind::Operation).len()
            == s.len(),
    decreases s.len(),
{
    reveal(Seq::filter);
    if s.len() == 0 {
        assert forall|x: ForeignSymbolView, k: ForeignSymbolKind|
            #[trigger] of_kind(s, k).contains(x) <==> (s.contains(x) && x.kind == k) by {
            assert(of_kind(s, k).len() == 0);
        }
    }
    if s.len() > 0 {
        let rest = s.drop_last();
        kinds_partition_symbols(rest);
        assert forall|x: ForeignSymbolView| s.contains(x) <==> (rest.contains(x) || x == s.last()) by {
            if s.contains(x) {
                let i = choose|i: int| 0 <= i < s.len() && s[i] == x;
                if i < s.len() - 1 {
                    assert(rest[i] == x);
                }
            }
            if rest.contains(x) {
                let i = choose|i: int| 0 <= i < rest.len() && rest[i] == x;
                assert(s[i] == x);
            }
            if x == s.last() {
                assert(s[s.len() - 1] == x);
            }
        }
        assert forall|x: ForeignSymbolView, k: ForeignSymbolKind|
            #[trigger] of_kind(s, k).contains(x) <==> (s.contains(x) && x.kind == k) by {
            let prev = of_kind(rest, k);
            assert(rest.contains(x) && x.kind == k <==> prev.contains(x));
            if s.last().kind == k {
                let q = prev.push(s.last());
                assert(of_kind(s, k) == q);
                if q.contains(x) {
                    let i = choose|i: int| 0 <= i < q.len() && q[i] == x;
                    if i < prev.len() {
                        assert(prev[i] == x);
                    }
                }
                if prev.contains(x) {
                    let i = choose|i: int| 0 <= i < prev.len() && prev[i] == x;
                    assert(q[i] == x);
                }
                if x == s.last() {
                    assert(q[q.len() - 1] == x);
                }
            } else {
                assert(of_kind(s, k) == prev);
            }
        }
        assert(of_kind(s, ForeignSymbolKind::Model).len() == of_kind(rest, ForeignSymbolKind::Model).len()
            + if s.last().kind == ForeignSymbolKind::Model { 1int } else { 0int });
        assert(of_kind(s, ForeignSymbolKind::Interface).len() == of_kind(rest, ForeignSymbolKind::Interface).len()
            + if s.last().kind == ForeignSymbolKind::Interface { 1int } else { 0int });
        assert(of_kind(s, ForeignSymbolKind::TypeAlias).len() == of_kind(rest, ForeignSymbolKind::TypeAlias).len()
            + if s.last().kind == ForeignSymbolKind::TypeAlias { 1int } else { 0int });
        assert(of_kind(s, ForeignSymbolKind::Enum).len() == of_kind(rest, ForeignSymbolKind::Enum).len()
            + if s.last().kind == ForeignSymbolKind::Enum { 1int } else { 0int });
        assert(of_kind(s, ForeignSymbolKind::Union).len() == of_kind(rest, ForeignSymbolKind::Union).len()
            + if s.last().kind == ForeignSymbolKind::Union { 1int } else { 0int });
        assert(of_kind(s, ForeignSymbolKind::Schema).len() == of_kind(rest, ForeignSymbolKind::Schema).len()
            + if s.last().kind == ForeignSymbolKind::Schema { 1int } else { 0int });
        assert(of_kind(s, ForeignSymbolKind::Namespace).len() == of_kind(rest, ForeignSymbolKind::Namespace).len()
            + if s.last().kind == ForeignSymbolKind::Namespace { 1int } else { 0int });
        assert(of_kind(s, ForeignSymbolKind::Operation).len() == of_kind(rest, ForeignSymbolKind::Operation).len()
            + if s.last().kind == ForeignSymbolKind::Operation { 1int } else { 0int });
    }
}

} // verus!
