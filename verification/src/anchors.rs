//! Code anchors: `@topos(...)` annotations found in Rust source comments,
//! and the collection that indexes them.
//!
//! ```text
//! // @topos(req="REQ-1", concept="Order")
//! pub struct Order { ... }
//! ```
use vstd::prelude::*;

use crate::cst::SyntaxNode;
use crate::grammars::{parse_rust, rust_syntax_tree};
use crate::parser::{find_child, first_of_kind};
use crate::regex_match::{captures_all, match_views, regex_captures, RegexMatch};
use crate::strmap::StrMap;
use crate::symbols::{SymbolTable, TableModel};
use crate::text::{
    chars_of, concat_map, find, find_spec, lemma_concat_map_push, lemma_filter_take_push, owned,
    contains, push_str, seq_contains, str_eq, string_from_range, trim, trimmed_range,
};

verus! {

// ============================================================================
// Types
// ============================================================================

/// The kind of element being annotated.
#[derive(Debug, Clone, Copy, PartialEq, Eq, Structural)]
pub enum AnchorKind {
    /// A concept (struct/type definition).
    Concept,
    /// A behavior (function).
    Behavior,
    /// A field within a concept.
    Field,
    /// A requirement reference.
    Requirement,
    /// Unknown/other annotation.
    Unknown,
}

/// Kind of code element.
#[derive(Debug, Clone, Copy, PartialEq, Eq, Structural)]
pub enum CodeElementKind {
    /// A struct definition.
    Struct,
    /// An enum definition.
    Enum,
    /// A function definition.
    Function,
    /// A struct field.
    Field,
    /// A type alias.
    TypeAlias,
    /// An impl block.
    Impl,
    /// Unknown element.
    Unknown,
}

/// A code element associated with an anchor.
#[derive(Debug)]
pub struct CodeElement {
    /// The element type.
    pub kind: CodeElementKind,
    /// The element name.
    pub name: String,
    /// The Rust type (for fields and return types).
    pub rust_type: Option<String>,
    /// Visibility (pub, pub(crate), etc.).
    pub visibility: Option<String>,
    /// The full source text of the element.
    pub source: String,
    /// Start line (0-indexed).
    pub start_line: usize,
    /// End line (0-indexed).
    pub end_line: usize,
}

/// A copy of an optional string.
fn clone_opt(o: &Option<String>) -> (r: Option<String>)
    ensures
        r == *o,
{
    match o {
        Some(s) => Some(s.clone()),
        None => None,
    }
}

impl Clone for CodeElement {
    fn clone(&self) -> (r: Self)
        ensures
            r == *self,
    {
        CodeElement {
            kind: self.kind,
            name: self.name.clone(),
            rust_type: clone_opt(&self.rust_type),
            visibility: clone_opt(&self.visibility),
            source: self.source.clone(),
            start_line: self.start_line,
            end_line: self.end_line,
        }
    }
}

impl Clone for Anchor {
    fn clone(&self) -> (r: Self)
        ensures
            r.kind == self.kind,
            r.attributes.entry_seq() == self.attributes.entry_seq(),
            r.attributes@ == self.attributes@,
            r.file_path == self.file_path,
            r.line == self.line,
            r.code_element == self.code_element,
    {
        Anchor {
            kind: self.kind,
            attributes: self.attributes.clone_texts(),
            file_path: self.file_path.clone(),
            line: self.line,
            code_element: match &self.code_element {
                Some(e) => Some(e.clone()),
                None => None,
            },
        }
    }
}

/// A parsed `@topos()` annotation from source code.
#[derive(Debug)]
pub struct Anchor {
    /// The type of anchor.
    pub kind: AnchorKind,
    /// All key-value attributes from the annotation.
    pub attributes: StrMap<String>,
    /// The source file path.
    pub file_path: String,
    /// Line number where the annotation appears (0-indexed).
    pub line: usize,
    /// The associated code element (struct name, fn name, field name, etc.).
    pub code_element: Option<CodeElement>,
}

// ============================================================================
// Attributes
// ============================================================================

/// The value of attribute `key` of `a`.
pub open spec fn anchor_attr(a: Anchor, key: Seq<char>) -> Option<Seq<char>> {
    if a.attributes@.contains_key(key) {
        Some(a.attributes@[key]@)
    } else {
        None
    }
}

/// The requirement an anchor names: its `req` attribute, else its `implements` one.
pub open spec fn anchor_req_id(a: Anchor) -> Option<Seq<char>> {
    match anchor_attr(a, "req"@) {
        Some(r) => Some(r),
        None => anchor_attr(a, "implements"@),
    }
}

/// The kind that a set of attributes gives an anchor.
pub open spec fn kind_of_attributes(m: Map<Seq<char>, String>) -> AnchorKind {
    if m.contains_key("concept"@) {
        AnchorKind::Concept
    } else if m.contains_key("behavior"@) {
        AnchorKind::Behavior
    } else if m.contains_key("field"@) {
        AnchorKind::Field
    } else if m.contains_key("req"@) {
        AnchorKind::Requirement
    } else {
        AnchorKind::Unknown
    }
}

impl AnchorKind {
    /// Determine anchor kind from attributes.
    pub fn from_attributes(attrs: &StrMap<String>) -> (k: AnchorKind)
        ensures
            k == kind_of_attributes(attrs@),
    {
        if attrs.contains_key("concept") {
            AnchorKind::Concept
        } else if attrs.contains_key("behavior") {
            AnchorKind::Behavior
        } else if attrs.contains_key("field") {
            AnchorKind::Field
        } else if attrs.contains_key("req") {
            AnchorKind::Requirement
        } else {
            AnchorKind::Unknown
        }
    }
}

impl Anchor {
    /// Get an attribute value.
    pub fn get(&self, key: &str) -> (r: Option<&str>)
        ensures
            match r {
                Some(v) => anchor_attr(*self, key@) == Some(v@),
                None => anchor_attr(*self, key@) is None,
            },
    {
        match self.attributes.get(key) {
            Some(v) => Some(v.as_str()),
            None => None,
        }
    }

    /// Get the requirement ID if this anchor references one.
    pub fn req_id(&self) -> (r: Option<&str>)
        ensures
            match r {
                Some(v) => anchor_req_id(*self) == Some(v@),
                None => anchor_req_id(*self) is None,
            },
    {
        match self.get("req") {
            Some(v) => Some(v),
            None => self.get("implements"),
        }
    }

    /// Get the concept name if specified.
    pub fn concept_name(&self) -> (r: Option<&str>)
        ensures
            match r {
                Some(v) => anchor_attr(*self, "concept"@) == Some(v@),
                None => anchor_attr(*self, "concept"@) is None,
            },
    {
        self.get("concept")
    }

    /// Get the behavior name if specified.
    pub fn behavior_name(&self) -> (r: Option<&str>)
        ensures
            match r {
                Some(v) => anchor_attr(*self, "behavior"@) == Some(v@),
                None => anchor_attr(*self, "behavior"@) is None,
            },
    {
        self.get("behavior")
    }

    /// Get the field name if specified.
    pub fn field_name(&self) -> (r: Option<&str>)
        ensures
            match r {
                Some(v) => anchor_attr(*self, "field"@) == Some(v@),
                None => anchor_attr(*self, "field"@) is None,
            },
    {
        self.get("field")
    }
}

// ============================================================================
// The collection and what it indexes
// ============================================================================

/// The positions of the anchors of `s` found in file `p`, in order.
pub open spec fn indices_in_file(s: Seq<Anchor>, p: Seq<char>) -> Seq<usize>
    decreases s.len(),
{
    if s.len() == 0 {
        Seq::empty()
    } else {
        let prev = indices_in_file(s.drop_last(), p);
        if s.last().file_path@ == p {
            prev.push((s.len() - 1) as usize)
        } else {
            prev
        }
    }
}

/// The position of the last anchor of `s` whose attribute `key` is `v`.
pub open spec fn last_with_attr(s: Seq<Anchor>, key: Seq<char>, v: Seq<char>) -> Option<int>
    decreases s.len(),
{
    if s.len() == 0 {
        None
    } else if anchor_attr(s.last(), key) == Some(v) {
        Some(s.len() - 1)
    } else {
        last_with_attr(s.drop_last(), key, v)
    }
}

/// The anchors that a sequence of references points to.
pub open spec fn derefs(s: Seq<&Anchor>) -> Seq<Anchor> {
    s.map_values(|a: &Anchor| *a)
}

/// The anchors of `s` of kind `k`, in order.
pub open spec fn anchors_of_kind(s: Seq<Anchor>, k: AnchorKind) -> Seq<Anchor> {
    s.filter(|a: Anchor| a.kind == k)
}

/// Every position that `indices_in_file` lists lies within `s`.
pub proof fn lemma_indices_in_file_bounded(s: Seq<Anchor>, p: Seq<char>)
    requires
        s.len() <= usize::MAX,
    ensures
        forall|k: int|
            0 <= k < indices_in_file(s, p).len() ==> #[trigger] indices_in_file(s, p)[k] < s.len()
                && s[indices_in_file(s, p)[k] as int].file_path@ == p,
    decreases s.len(),
{
    if s.len() > 0 {
        lemma_indices_in_file_bounded(s.drop_last(), p);
        let prev = indices_in_file(s.drop_last(), p);
        assert forall|k: int| 0 <= k < prev.len() implies #[trigger] prev[k] < s.len() && s[prev[k] as int].file_path@ == p by {
            assert(s.drop_last()[prev[k] as int] == s[prev[k] as int]);
        }
        let cur = indices_in_file(s, p);
        assert forall|k: int| 0 <= k < cur.len() implies #[trigger] cur[k] < s.len() && s[cur[k] as int].file_path@ == p by {
            if k < prev.len() {
                assert(cur[k] == prev[k]);
            } else {
                assert(cur[k] as int == s.len() - 1);
            }
        }
    }
}

/// The position that `last_with_attr` gives lies within `s` and has the attribute.
pub proof fn lemma_last_with_attr(s: Seq<Anchor>, key: Seq<char>, v: Seq<char>)
    ensures
        last_with_attr(s, key, v) matches Some(i) ==> 0 <= i < s.len() && anchor_attr(s[i], key)
            == Some(v),
    decreases s.len(),
{
    if s.len() > 0 && anchor_attr(s.last(), key) != Some(v) {
        lemma_last_with_attr(s.drop_last(), key, v);
        if let Some(i) = last_with_attr(s.drop_last(), key, v) {
            assert(s.drop_last()[i] == s[i]);
        }
    }
}

/// `a` is a concept or behavior anchor of file `file` below line `line`.
pub open spec fn is_boundary(a: Anchor, file: Seq<char>, line: usize) -> bool {
    (a.kind == AnchorKind::Concept || a.kind == AnchorKind::Behavior) && a.file_path@ == file
        && a.line > line
}

/// The first line below `line` at which a concept or behavior anchor of `file`
/// stands in `s`, or `usize::MAX` when there is none.
pub open spec fn next_boundary(s: Seq<Anchor>, file: Seq<char>, line: usize) -> usize
    decreases s.len(),
{
    if s.len() == 0 {
        usize::MAX
    } else {
        let b = next_boundary(s.drop_last(), file, line);
        if is_boundary(s.last(), file, line) && s.last().line < b {
            s.last().line
        } else {
            b
        }
    }
}

/// `a` is a field anchor of `file` strictly between lines `line` and `bound`.
pub open spec fn field_between(a: Anchor, file: Seq<char>, line: usize, bound: usize) -> bool {
    a.kind == AnchorKind::Field && a.file_path@ == file && a.line > line && a.line < bound
}

/// The field anchors that belong to the (last) concept anchor named `name`:
/// those of its file below it and above the next concept or behavior anchor.
pub open spec fn concept_fields(s: Seq<Anchor>, name: Seq<char>) -> Seq<Anchor> {
    match last_with_attr(s, "concept"@, name) {
        Some(i) => s.filter(
            |a: Anchor|
                field_between(
                    a,
                    s[i].file_path@,
                    s[i].line,
                    next_boundary(s, s[i].file_path@, s[i].line),
                ),
        ),
        None => Seq::empty(),
    }
}

/// The distinct requirement IDs that the anchors of `s` name, in order of first mention.
pub open spec fn req_ids_of(s: Seq<Anchor>) -> Seq<Seq<char>>
    decreases s.len(),
{
    if s.len() == 0 {
        Seq::empty()
    } else {
        let prev = req_ids_of(s.drop_last());
        match anchor_req_id(s.last()) {
            Some(r) => if prev.contains(r) {
                prev
            } else {
                prev.push(r)
            },
            None => prev,
        }
    }
}

/// The block generated for each requirement ID.
pub open spec fn req_blocks(ids: Seq<Seq<char>>) -> Seq<char>
    decreases ids.len(),
{
    if ids.len() == 0 {
        Seq::empty()
    } else {
        req_blocks(ids.drop_last()) + "## "@ + ids.last() + ": Extracted requirement\n"@
            + "Description extracted from code annotations.\n\n"@
    }
}

/// The Rust type recorded for an anchor's code element, if any.
pub open spec fn element_type(a: Anchor) -> Option<Seq<char>> {
    match a.code_element {
        Some(e) => match e.rust_type {
            Some(t) => Some(t@),
            None => None,
        },
        None => None,
    }
}

/// The line generated for one field anchor.
pub open spec fn field_line(f: Anchor) -> Seq<char> {
    match anchor_attr(f, "field"@) {
        Some(n) => "  field "@ + n + (match element_type(f) {
            Some(t) => " (`"@ + t + "`)"@,
            None => Seq::empty(),
        }) + "\n"@,
        None => Seq::empty(),
    }
}

/// The lines generated for field anchors.
pub open spec fn field_lines(fs: Seq<Anchor>) -> Seq<char>
    decreases fs.len(),
{
    if fs.len() == 0 {
        Seq::empty()
    } else {
        field_lines(fs.drop_last()) + field_line(fs.last())
    }
}

/// The blocks generated for concept anchors, given all anchors `s`.
pub open spec fn concept_blocks(s: Seq<Anchor>, cs: Seq<Anchor>) -> Seq<char>
    decreases cs.len(),
{
    if cs.len() == 0 {
        Seq::empty()
    } else {
        concept_blocks(s, cs.drop_last()) + match anchor_attr(cs.last(), "concept"@) {
            Some(n) => "Concept "@ + n + ":\n"@ + field_lines(concept_fields(s, n)) + "\n"@,
            None => Seq::empty(),
        }
    }
}

/// The block generated for one behavior anchor.
pub open spec fn behavior_block(b: Anchor) -> Seq<char> {
    match anchor_attr(b, "behavior"@) {
        Some(n) => "Behavior "@ + n + (match anchor_req_id(b) {
            Some(r) => " ["@ + r + "]"@,
            None => Seq::empty(),
        }) + ":\n"@ + (match element_type(b) {
            Some(t) => "  returns `"@ + t + "`\n"@,
            None => Seq::empty(),
        }) + "\n"@,
        None => Seq::empty(),
    }
}

/// The blocks generated for behavior anchors.
pub open spec fn behavior_blocks(bs: Seq<Anchor>) -> Seq<char>
    decreases bs.len(),
{
    if bs.len() == 0 {
        Seq::empty()
    } else {
        behavior_blocks(bs.drop_last()) + behavior_block(bs.last())
    }
}

/// The specification text generated from anchors `s` under the name `name`.
pub open spec fn generated_spec(s: Seq<Anchor>, name: Seq<char>) -> Seq<char> {
    "spec "@ + name + "\n\n"@ + (if req_ids_of(s).len() > 0 {
        "# Requirements\n\n"@ + req_blocks(req_ids_of(s))
    } else {
        Seq::empty()
    }) + (if anchors_of_kind(s, AnchorKind::Concept).len() > 0 {
        "# Concepts\n\n"@ + concept_blocks(s, anchors_of_kind(s, AnchorKind::Concept))
    } else {
        Seq::empty()
    }) + (if anchors_of_kind(s, AnchorKind::Behavior).len() > 0 {
        "# Behaviors\n\n"@ + behavior_blocks(anchors_of_kind(s, AnchorKind::Behavior))
    } else {
        Seq::empty()
    })
}

/// Whether `v` holds a string equal to `t`.
fn holds_string(v: &Vec<String>, t: &str) -> (b: bool)
    ensures
        b == crate::text::views(v@).contains(t@),
{
    let mut i: usize = 0;
    while i < v.len()
        invariant
            i <= v@.len(),
            forall|j: int| 0 <= j < i ==> v@[j]@ != t@,
        decreases v.len() - i,
    {
        if str_eq(v[i].as_str(), t) {
            assert(crate::text::views(v@)[i as int] == t@);
            return true;
        }
        i += 1;
    }
    proof {
        if crate::text::views(v@).contains(t@) {
            let j = choose|j: int| 0 <= j < crate::text::views(v@).len() && crate::text::views(v@)[j] == t@;
            assert(v@[j]@ == t@);
        }
    }
    false
}

/// Appends the line generated for one field anchor.
fn push_field_line(out: &mut String, f: &Anchor)
    ensures
        final(out)@ == old(out)@ + field_line(*f),
{
    match f.field_name() {
        Some(field_name) => {
            push_str(out, "  field ");
            push_str(out, field_name);
            match &f.code_element {
                Some(e) => match &e.rust_type {
                    Some(t) => {
                        push_str(out, " (`");
                        push_str(out, t.as_str());
                        push_str(out, "`)");
                    },
                    None => {},
                },
                None => {},
            }
            push_str(out, "\n");
        },
        None => {},
    }
    assert(out@ =~= old(out)@ + field_line(*f));
}

/// Appends the block generated for one behavior anchor.
fn push_behavior_block(out: &mut String, b: &Anchor)
    ensures
        final(out)@ == old(out)@ + behavior_block(*b),
{
    match b.behavior_name() {
        Some(name) => {
            push_str(out, "Behavior ");
            push_str(out, name);
            match b.req_id() {
                Some(r) => {
                    push_str(out, " [");
                    push_str(out, r);
                    push_str(out, "]");
                },
                None => {},
            }
            push_str(out, ":\n");
            match &b.code_element {
                Some(e) => match &e.rust_type {
                    Some(t) => {
                        push_str(out, "  returns `");
                        push_str(out, t.as_str());
                        push_str(out, "`\n");
                    },
                    None => {},
                },
                None => {},
            }
            push_str(out, "\n");
        },
        None => {},
    }
    assert(out@ =~= old(out)@ + behavior_block(*b));
}

/// Collection of anchors extracted from source files.
#[derive(Debug)]
pub struct AnchorCollection {
    /// All extracted anchors.
    pub anchors: Vec<Anchor>,
    /// Anchors indexed by file path.
    anchors_by_file: StrMap<Vec<usize>>,
    /// Concept anchors indexed by name.
    concepts: StrMap<usize>,
    /// Behavior anchors indexed by name.
    behaviors: StrMap<usize>,
}

/// `idx` indexes, by attribute `key`, the last anchor of `s` with each value.
pub open spec fn indexes_last(idx: Map<Seq<char>, usize>, s: Seq<Anchor>, key: Seq<char>) -> bool {
    forall|v: Seq<char>|
        #![trigger idx.contains_key(v)]
        #![trigger last_with_attr(s, key, v)]
        (idx.contains_key(v) <==> last_with_attr(s, key, v) is Some) && (idx.contains_key(v)
            ==> idx[v] as int == last_with_attr(s, key, v)->0)
}

/// `idx` lists, for each file, the positions of its anchors in `s`.
pub open spec fn indexes_files(idx: Map<Seq<char>, Vec<usize>>, s: Seq<Anchor>) -> bool {
    forall|p: Seq<char>|
        #![trigger idx.contains_key(p)]
        #![trigger indices_in_file(s, p)]
        (idx.contains_key(p) ==> idx[p]@ == indices_in_file(s, p)) && (!idx.contains_key(p)
            ==> indices_in_file(s, p).len() == 0)
}

/// A copy of a list of positions.
fn copy_indices(v: &Vec<usize>) -> (r: Vec<usize>)
    ensures
        r@ == v@,
{
    let mut r: Vec<usize> = Vec::new();
    let mut i: usize = 0;
    while i < v.len()
        invariant
            i <= v@.len(),
            r@ == v@.take(i as int),
        decreases v.len() - i,
    {
        r.push(v[i]);
        i += 1;
        assert(r@ =~= v@.take(i as int));
    }
    assert(v@.take(v@.len() as int) =~= v@);
    r
}

/// Indexing one more anchor under attribute `key`.
proof fn lemma_index_push(
    old_idx: Map<Seq<char>, usize>,
    new_idx: Map<Seq<char>, usize>,
    s: Seq<Anchor>,
    a: Anchor,
    key: Seq<char>,
)
    requires
        indexes_last(old_idx, s, key),
        match anchor_attr(a, key) {
            Some(v) => new_idx == old_idx.insert(v, s.len() as usize),
            None => new_idx == old_idx,
        },
        s.len() < usize::MAX,
    ensures
        indexes_last(new_idx, s.push(a), key),
{
    let t = s.push(a);
    assert(t.drop_last() =~= s);
    assert(t.last() == a);
    assert forall|v: Seq<char>|
        #![trigger new_idx.contains_key(v)]
        #![trigger last_with_attr(t, key, v)]
        (new_idx.contains_key(v) <==> last_with_attr(t, key, v) is Some) && (new_idx.contains_key(v)
            ==> new_idx[v] as int == last_with_attr(t, key, v)->0) by {
        assert(last_with_attr(t, key, v) == (if anchor_attr(a, key) == Some(v) {
            Some(s.len() as int)
        } else {
            last_with_attr(s, key, v)
        }));
        assert(old_idx.contains_key(v) <==> last_with_attr(s, key, v) is Some);
    }
}

impl View for AnchorCollection {
    type V = Seq<Anchor>;

    /// The anchors, in the order they were added.
    closed spec fn view(&self) -> Seq<Anchor> {
        self.anchors@
    }
}

impl AnchorCollection {
    /// The per-file index.
    pub closed spec fn file_index(self) -> Map<Seq<char>, Vec<usize>> {
        self.anchors_by_file@
    }

    /// The index of concept anchors by name.
    pub closed spec fn concept_index(self) -> Map<Seq<char>, usize> {
        self.concepts@
    }

    /// The index of behavior anchors by name.
    pub closed spec fn behavior_index(self) -> Map<Seq<char>, usize> {
        self.behaviors@
    }

    /// The indexes agree with the anchors.
    pub closed spec fn well_formed(self) -> bool {
        &&& indexes_files(self.file_index(), self@)
        &&& indexes_last(self.concept_index(), self@, "concept"@)
        &&& indexes_last(self.behavior_index(), self@, "behavior"@)
    }

    /// Create an empty collection.
    pub fn new() -> (c: Self)
        ensures
            c@.len() == 0,
            c.well_formed(),
    {
        let c = AnchorCollection {
            anchors: Vec::new(),
            anchors_by_file: StrMap::new(),
            concepts: StrMap::new(),
            behaviors: StrMap::new(),
        };
        assert(c@ =~= Seq::<Anchor>::empty());
        c
    }

    /// Add an anchor to the collection.
    pub fn add(&mut self, anchor: Anchor)
        ensures
            final(self)@ == old(self)@.push(anchor),
            old(self).well_formed() ==> final(self).well_formed(),
    {
        let idx = self.anchors.len();
        let ghost s = self@;
        let ghost old_files = self.anchors_by_file@;
        let ghost old_concepts = self.concepts@;
        let ghost old_behaviors = self.behaviors@;

        let mut list: Vec<usize> = match self.anchors_by_file.get(anchor.file_path.as_str()) {
            Some(v) => copy_indices(v),
            None => Vec::new(),
        };
        list.push(idx);
        let ghost new_list = list@;
        self.anchors_by_file.insert(anchor.file_path.clone(), list);

        match anchor.concept_name() {
            Some(name) => {
                self.concepts.insert(owned(name), idx);
            },
            None => {},
        }
        match anchor.behavior_name() {
            Some(name) => {
                self.behaviors.insert(owned(name), idx);
            },
            None => {},
        }
        let ghost a = anchor;
        self.anchors.push(anchor);
        let total = self.anchors.len();
        proof {
            let t = self@;
            assert(t == s.push(a));
            assert(t.drop_last() =~= s);
            assert(t.last() == a);
            if indexes_files(old_files, s) && indexes_last(old_concepts, s, "concept"@)
                && indexes_last(old_behaviors, s, "behavior"@) {
                let p0 = a.file_path@;
                assert(new_list == indices_in_file(s, p0).push(idx)) by {
                    if !old_files.contains_key(p0) {
                        assert(indices_in_file(s, p0).len() == 0);
                        assert(indices_in_file(s, p0) =~= Seq::<usize>::empty());
                    }
                }
                assert forall|p: Seq<char>|
                    #![trigger self.anchors_by_file@.contains_key(p)]
                    #![trigger indices_in_file(t, p)]
                    (self.anchors_by_file@.contains_key(p) ==> self.anchors_by_file@[p]@
                        == indices_in_file(t, p)) && (!self.anchors_by_file@.contains_key(p)
                        ==> indices_in_file(t, p).len() == 0) by {
                    assert(indices_in_file(t, p) == (if p == p0 {
                        indices_in_file(s, p).push(idx)
                    } else {
                        indices_in_file(s, p)
                    }));
                    assert(old_files.contains_key(p) ==> old_files[p]@ == indices_in_file(s, p));
                }
                lemma_index_push(old_concepts, self.concepts@, s, a, "concept"@);
                lemma_index_push(old_behaviors, self.behaviors@, s, a, "behavior"@);
            }
        }
    }

    /// Get all anchors from a specific file.
    pub fn from_file(&self, path: &str) -> (r: Vec<&Anchor>)
        ensures
            self.well_formed() ==> derefs(r@) == indices_in_file(self@, path@).map_values(
                |i: usize| self@[i as int],
            ),
    {
        let total = self.anchors.len();
        let mut r: Vec<&Anchor> = Vec::new();
        let ghost want = indices_in_file(self@, path@).map_values(|i: usize| self@[i as int]);
        match self.anchors_by_file.get(path) {
            Some(indices) => {
                let ghost got = indices@.map_values(|i: usize| self@[i as int]);
                let mut k: usize = 0;
                let mut all_in = true;
                while k < indices.len()
                    invariant
                        k <= indices@.len(),
                        got == indices@.map_values(|i: usize| self@[i as int]),
                        all_in ==> derefs(r@) == got.take(k as int),
                        !all_in ==> exists|j: int| 0 <= j < k && indices@[j] >= self@.len(),
                    decreases indices.len() - k,
                {
                    let i = indices[k];
                    if i < self.anchors.len() {
                        let ghost r0 = r@;
                        r.push(&self.anchors[i]);
                        assert(derefs(r@) =~= derefs(r0).push(self@[i as int]));
                    } else {
                        all_in = false;
                    }
                    k += 1;
                    assert(all_in ==> derefs(r@) =~= got.take(k as int));
                }
                assert(got.take(indices@.len() as int) =~= got);
                proof {
                    if self.well_formed() {
                        assert(self@.len() == total);
                        lemma_indices_in_file_bounded(self@, path@);
                        assert(self.anchors_by_file@.contains_key(path@));
                        assert(indices@ == indices_in_file(self@, path@));
                        assert(all_in);
                        assert(got == want);
                    }
                }
                if !all_in {
                    r = Vec::new();
                }
            },
            None => {
                proof {
                    if self.well_formed() {
                        assert(indices_in_file(self@, path@).len() == 0);
                        assert(derefs(r@) =~= want);
                    }
                }
            },
        }
        r
    }

    /// The anchor at the position an index holds, if it is in range.
    fn at_index(&self, found: Option<&usize>) -> (r: Option<&Anchor>)
        ensures
            match found {
                Some(i) => if (*i as int) < self@.len() {
                    r == Some(&self@[*i as int])
                } else {
                    r is None
                },
                None => r is None,
            },
    {
        match found {
            Some(i) => {
                if *i < self.anchors.len() {
                    Some(&self.anchors[*i])
                } else {
                    None
                }
            },
            None => None,
        }
    }

    /// Get a concept anchor by name.
    pub fn concept(&self, name: &str) -> (r: Option<&Anchor>)
        ensures
            self.well_formed() ==> match last_with_attr(self@, "concept"@, name@) {
                Some(i) => r == Some(&self@[i]),
                None => r is None,
            },
    {
        proof {
            lemma_last_with_attr(self@, "concept"@, name@);
        }
        self.at_index(self.concepts.get(name))
    }

    /// Get a behavior anchor by name.
    pub fn behavior(&self, name: &str) -> (r: Option<&Anchor>)
        ensures
            self.well_formed() ==> match last_with_attr(self@, "behavior"@, name@) {
                Some(i) => r == Some(&self@[i]),
                None => r is None,
            },
    {
        proof {
            lemma_last_with_attr(self@, "behavior"@, name@);
        }
        self.at_index(self.behaviors.get(name))
    }

    /// The anchors of kind `kind`, in order.
    fn of_kind(&self, kind: AnchorKind) -> (r: Vec<&Anchor>)
        ensures
            derefs(r@) == anchors_of_kind(self@, kind),
    {
        let ghost p = |a: Anchor| a.kind == kind;
        let mut r: Vec<&Anchor> = Vec::new();
        let mut i: usize = 0;
        while i < self.anchors.len()
            invariant
                i <= self@.len(),
                p == (|a: Anchor| a.kind == kind),
                derefs(r@) == self@.take(i as int).filter(p),
            decreases self.anchors.len() - i,
        {
            proof {
                lemma_filter_take_push(self@, p, i as int);
            }
            if self.anchors[i].kind == kind {
                let ghost r0 = r@;
                r.push(&self.anchors[i]);
                assert(derefs(r@) =~= derefs(r0).push(self@[i as int]));
            }
            i += 1;
        }
        assert(self@.take(self@.len() as int) =~= self@);
        r
    }

    /// Get all concept anchors.
    pub fn concepts(&self) -> (r: Vec<&Anchor>)
        ensures
            derefs(r@) == anchors_of_kind(self@, AnchorKind::Concept),
    {
        self.of_kind(AnchorKind::Concept)
    }

    /// Get all behavior anchors.
    pub fn behaviors(&self) -> (r: Vec<&Anchor>)
        ensures
            derefs(r@) == anchors_of_kind(self@, AnchorKind::Behavior),
    {
        self.of_kind(AnchorKind::Behavior)
    }

    /// Get all field anchors.
    pub fn fields(&self) -> (r: Vec<&Anchor>)
        ensures
            derefs(r@) == anchors_of_kind(self@, AnchorKind::Field),
    {
        self.of_kind(AnchorKind::Field)
    }

    /// Get all requirement anchors.
    pub fn requirements(&self) -> (r: Vec<&Anchor>)
        ensures
            derefs(r@) == anchors_of_kind(self@, AnchorKind::Requirement),
    {
        self.of_kind(AnchorKind::Requirement)
    }

    /// Get all field anchors for a concept: those that follow the concept
    /// anchor in the same file, up to the next concept or behavior anchor.
    pub fn fields_for_concept(&self, concept_name: &str) -> (r: Vec<&Anchor>)
        ensures
            self.well_formed() ==> derefs(r@) == concept_fields(self@, concept_name@),
    {
        let concept = match self.concept(concept_name) {
            Some(c) => c,
            None => {
                let r: Vec<&Anchor> = Vec::new();
                assert(derefs(r@) =~= Seq::<Anchor>::empty());
                return r;
            },
        };
        let ghost file = concept.file_path@;
        let line = concept.line;
        let mut bound: usize = usize::MAX;
        let mut i: usize = 0;
        while i < self.anchors.len()
            invariant
                i <= self@.len(),
                file == concept.file_path@,
                line == concept.line,
                bound == next_boundary(self@.take(i as int), file, line),
            decreases self.anchors.len() - i,
        {
            let a = &self.anchors[i];
            proof {
                assert(self@.take(i + 1).drop_last() =~= self@.take(i as int));
                assert(self@.take(i + 1).last() == self@[i as int]);
            }
            if (a.kind == AnchorKind::Concept || a.kind == AnchorKind::Behavior) && str_eq(
                a.file_path.as_str(),
                concept.file_path.as_str(),
            ) && a.line > line && a.line < bound {
                bound = a.line;
            }
            i += 1;
        }
        assert(self@.take(self@.len() as int) =~= self@);
        let ghost p = |a: Anchor| field_between(a, file, line, bound);
        let mut r: Vec<&Anchor> = Vec::new();
        let mut i: usize = 0;
        while i < self.anchors.len()
            invariant
                i <= self@.len(),
                file == concept.file_path@,
                line == concept.line,
                p == (|a: Anchor| field_between(a, file, line, bound)),
                derefs(r@) == self@.take(i as int).filter(p),
            decreases self.anchors.len() - i,
        {
            proof {
                lemma_filter_take_push(self@, p, i as int);
            }
            let a = &self.anchors[i];
            if a.kind == AnchorKind::Field && str_eq(a.file_path.as_str(), concept.file_path.as_str())
                && a.line > line && a.line < bound {
                let ghost r0 = r@;
                r.push(a);
                assert(derefs(r@) =~= derefs(r0).push(self@[i as int]));
            }
            i += 1;
        }
        proof {
            if self.well_formed() {
                lemma_last_with_attr(self@, "concept"@, concept_name@);
                let k = last_with_attr(self@, "concept"@, concept_name@)->0;
                assert(*concept == self@[k]);
                let q = |a: Anchor|
                    field_between(
                        a,
                        self@[k].file_path@,
                        self@[k].line,
                        next_boundary(self@, self@[k].file_path@, self@[k].line),
                    );
                assert(p =~= q);
            }
        }
        r
    }

    /// Generate Topos spec from anchors.
    pub fn generate_spec(&self, spec_name: &str) -> (out: String)
        ensures
            self.well_formed() ==> out@ == generated_spec(self@, spec_name@),
    {
        let ghost s = self@;
        let ghost wf = self.well_formed();
        let mut out = String::new();
        push_str(&mut out, "spec ");
        push_str(&mut out, spec_name);
        push_str(&mut out, "\n\n");
        let ghost head = out@;

        // Requirement IDs, first mention first.
        let mut ids: Vec<String> = Vec::new();
        let mut i: usize = 0;
        while i < self.anchors.len()
            invariant
                i <= s.len(),
                s == self@,
                crate::text::views(ids@) == req_ids_of(s.take(i as int)),
            decreases self.anchors.len() - i,
        {
            proof {
                assert(s.take(i + 1).drop_last() =~= s.take(i as int));
                assert(s.take(i + 1).last() == s[i as int]);
            }
            match self.anchors[i].req_id() {
                Some(r) => {
                    if !holds_string(&ids, r) {
                        let ghost v0 = ids@;
                        ids.push(owned(r));
                        assert(crate::text::views(ids@) =~= crate::text::views(v0).push(r@));
                    }
                },
                None => {},
            }
            i += 1;
        }
        assert(s.take(s.len() as int) =~= s);
        let ghost ids_v = crate::text::views(ids@);
        if ids.len() > 0 {
            push_str(&mut out, "# Requirements\n\n");
            let ghost base = out@;
            let mut k: usize = 0;
            while k < ids.len()
                invariant
                    k <= ids@.len(),
                    ids_v == crate::text::views(ids@),
                    out@ == base + req_blocks(ids_v.take(k as int)),
                decreases ids.len() - k,
            {
                proof {
                    assert(ids_v.take(k + 1).drop_last() =~= ids_v.take(k as int));
                }
                push_str(&mut out, "## ");
                push_str(&mut out, ids[k].as_str());
                push_str(&mut out, ": Extracted requirement\n");
                push_str(&mut out, "Description extracted from code annotations.\n\n");
                k += 1;
            }
            assert(ids_v.take(ids_v.len() as int) =~= ids_v);
        }
        let ghost after_reqs = out@;

        // Concepts, with their fields.
        let cs = self.concepts();
        let ghost cs_v = derefs(cs@);
        if cs.len() > 0 {
            push_str(&mut out, "# Concepts\n\n");
            let ghost base = out@;
            let mut k: usize = 0;
            while k < cs.len()
                invariant
                    k <= cs@.len(),
                    s == self@,
                    cs_v == derefs(cs@),
                    self.well_formed() ==> out@ == base + concept_blocks(s, cs_v.take(k as int)),
                decreases cs.len() - k,
            {
                proof {
                    assert(cs_v.take(k + 1).drop_last() =~= cs_v.take(k as int));
                    assert(cs_v.take(k + 1).last() == *cs@[k as int]);
                }
                let anchor = cs[k];
                let ghost before = out@;
                match anchor.concept_name() {
                    Some(name) => {
                        push_str(&mut out, "Concept ");
                        push_str(&mut out, name);
                        push_str(&mut out, ":\n");
                        let fs = self.fields_for_concept(name);
                        let ghost fs_v = derefs(fs@);
                        let ghost mid = out@;
                        let mut j: usize = 0;
                        while j < fs.len()
                            invariant
                                j <= fs@.len(),
                                fs_v == derefs(fs@),
                                out@ == mid + field_lines(fs_v.take(j as int)),
                            decreases fs.len() - j,
                        {
                            proof {
                                assert(fs_v.take(j + 1).drop_last() =~= fs_v.take(j as int));
                                assert(fs_v.take(j + 1).last() == *fs@[j as int]);
                            }
                            push_field_line(&mut out, fs[j]);
                            j += 1;
                        }
                        assert(fs_v.take(fs_v.len() as int) =~= fs_v);
                        push_str(&mut out, "\n");
                    },
                    None => {},
                }
                k += 1;
            }
            assert(cs_v.take(cs_v.len() as int) =~= cs_v);
        }
        let ghost after_concepts = out@;

        // Behaviors.
        let bs = self.behaviors();
        let ghost bs_v = derefs(bs@);
        if bs.len() > 0 {
            push_str(&mut out, "# Behaviors\n\n");
            let ghost base = out@;
            let mut k: usize = 0;
            while k < bs.len()
                invariant
                    k <= bs@.len(),
                    bs_v == derefs(bs@),
                    out@ == base + behavior_blocks(bs_v.take(k as int)),
                decreases bs.len() - k,
            {
                proof {
                    assert(bs_v.take(k + 1).drop_last() =~= bs_v.take(k as int));
                    assert(bs_v.take(k + 1).last() == *bs@[k as int]);
                }
                push_behavior_block(&mut out, bs[k]);
                k += 1;
            }
            assert(bs_v.take(bs_v.len() as int) =~= bs_v);
        }
        proof {
            if self.well_formed() {
                assert(out@ =~= generated_spec(s, spec_name@));
            }
        }
        out
    }

    /// Check if collection is empty.
    pub fn is_empty(&self) -> (b: bool)
        ensures
            b == (self@.len() == 0),
    {
        self.anchors.len() == 0
    }

    /// Get number of anchors.
    pub fn len(&self) -> (n: usize)
        ensures
            n == self@.len(),
    {
        self.anchors.len()
    }
}


// ============================================================================
// Validation results
// ============================================================================

/// The kind of spec element an anchor refers to.
#[derive(Debug, Clone, Copy, PartialEq, Eq, Structural)]
pub enum AnchorReferenceKind {
    /// A requirement (`req` or `implements`).
    Requirement,
    /// A concept.
    Concept,
    /// A behavior.
    Behavior,
}

/// An anchor that refers to a spec element that does not exist.
#[derive(Debug)]
pub struct InvalidAnchor {
    /// The anchor holding the reference.
    pub anchor: Anchor,
    /// What kind of element it refers to.
    pub reference_kind: AnchorReferenceKind,
    /// The name that did not resolve.
    pub unresolved_reference: String,
    /// Names of existing elements that it may have meant.
    pub suggestions: Vec<String>,
}

/// A spec element that no anchor implements.
#[derive(Debug)]
pub struct OrphanSpecElement {
    /// The element's kind.
    pub kind: AnchorReferenceKind,
    /// The element's name.
    pub name: String,
}

/// The outcome of checking anchors against a specification.
#[derive(Debug)]
pub struct AnchorValidation {
    /// The positions of the anchors whose references all resolve.
    pub valid: Vec<usize>,
    /// Anchors whose references do not resolve.
    pub invalid: Vec<InvalidAnchor>,
    /// Spec elements that no anchor implements.
    pub orphan_spec_elements: Vec<OrphanSpecElement>,
}


// ============================================================================
// Extraction from Rust source
// ============================================================================

/// A text taken by its view, when there is one.
pub open spec fn opt_view(o: Option<String>) -> Option<Seq<char>> {
    match o {
        Some(s) => Some(s@),
        None => None,
    }
}

/// The item kinds an annotation attaches to.
pub open spec fn is_item_kind(k: Seq<char>) -> bool {
    k == "struct_item"@ || k == "enum_item"@ || k == "function_item"@ || k == "field_declaration"@
        || k == "type_item"@
}

/// The first of `after` that is an item an annotation attaches to.
pub open spec fn first_item(after: Seq<SyntaxNode>) -> Option<SyntaxNode>
    decreases after.len(),
{
    if after.len() == 0 {
        None
    } else if is_item_kind(after[0].kind@) {
        Some(after[0])
    } else {
        first_item(after.drop_first())
    }
}

/// The text of the first child of kind `k`, if there is one.
pub open spec fn child_text(cs: Seq<SyntaxNode>, k: Seq<char>) -> Option<Seq<char>> {
    match first_of_kind(cs, k) {
        Some(c) => Some(c.text@),
        None => None,
    }
}

/// A child that names a field's type: its kind mentions `type` but is
/// neither `type_identifier` nor `visibility_modifier`.
pub open spec fn is_type_child(c: SyntaxNode) -> bool {
    seq_contains(c.kind@, "type"@) && c.kind@ != "type_identifier"@ && c.kind@
        != "visibility_modifier"@
}

/// The first child that names a field's type.
pub open spec fn first_type_child(cs: Seq<SyntaxNode>) -> Option<SyntaxNode>
    decreases cs.len(),
{
    if cs.len() == 0 {
        None
    } else if is_type_child(cs[0]) {
        Some(cs[0])
    } else {
        first_type_child(cs.drop_first())
    }
}

/// The return type written in a function's text: what follows the first
/// `->`, up to the first `{` (else the first `where`, else the end), trimmed;
/// none when that is empty.
pub open spec fn return_type_of(t: Seq<char>) -> Option<Seq<char>> {
    match find_spec(t, "->"@) {
        Some(p) => {
            let after = t.subrange(p + 2, t.len() as int);
            let end = match find_spec(after, "{"@) {
                Some(e) => e,
                None => match find_spec(after, "where"@) {
                    Some(w) => w,
                    None => after.len() as int,
                },
            };
            let r = trim(after.subrange(0, end));
            if r.len() == 0 {
                None
            } else {
                Some(r)
            }
        },
        None => None,
    }
}

/// The element kind of an item kind.
pub open spec fn element_kind(k: Seq<char>) -> CodeElementKind {
    if k == "struct_item"@ {
        CodeElementKind::Struct
    } else if k == "enum_item"@ {
        CodeElementKind::Enum
    } else if k == "function_item"@ {
        CodeElementKind::Function
    } else if k == "field_declaration"@ {
        CodeElementKind::Field
    } else {
        CodeElementKind::TypeAlias
    }
}

/// The kind of the child that names an item.
pub open spec fn name_kind(k: Seq<char>) -> Seq<char> {
    if k == "function_item"@ {
        "identifier"@
    } else if k == "field_declaration"@ {
        "field_identifier"@
    } else {
        "type_identifier"@
    }
}

/// `e` is the code element of item node `n`: its name (or `Unknown`), its
/// visibility, its text and lines, and the type a function returns or a
/// field holds.
pub open spec fn element_of(e: CodeElement, n: SyntaxNode) -> bool {
    let k = n.kind@;
    let cs = n.children@;
    &&& e.kind == element_kind(k)
    &&& e.name@ == match child_text(cs, name_kind(k)) {
        Some(t) => t,
        None => "Unknown"@,
    }
    &&& opt_view(e.visibility) == child_text(cs, "visibility_modifier"@)
    &&& e.source@ == n.text@
    &&& e.start_line == n.span.start_line as usize
    &&& e.end_line == n.span.end_line as usize
    &&& opt_view(e.rust_type) == if k == "function_item"@ {
        return_type_of(n.text@)
    } else if k == "field_declaration"@ {
        match first_type_child(cs) {
            Some(c) => Some(c.text@),
            None => None,
        }
    } else {
        None
    }
}

/// The attribute list of an annotation comment: the first group of the
/// first `@topos( ... )` match in a line or block comment.
pub open spec fn annotation_attrs(c: SyntaxNode) -> Option<Seq<char>> {
    let caps = regex_captures("@topos\\s*\\(\\s*([^)]*)\\s*\\)"@, c.text@);
    if (c.kind@ == "line_comment"@ || c.kind@ == "block_comment"@) && caps.len() > 0 {
        Some(
            match caps[0].1 {
                Some(g) => g,
                None => Seq::empty(),
            },
        )
    } else {
        None
    }
}

/// The attributes that `key="value"` matches give, a later key replacing an earlier one.
pub open spec fn attr_pairs_map(caps: Seq<(usize, Option<Seq<char>>, Option<Seq<char>>)>) -> Map<
    Seq<char>,
    Seq<char>,
>
    decreases caps.len(),
{
    if caps.len() == 0 {
        Map::empty()
    } else {
        let m = attr_pairs_map(caps.drop_last());
        match (caps.last().1, caps.last().2) {
            (Some(k), Some(v)) => m.insert(k, v),
            _ => m,
        }
    }
}

/// The attributes written in an attribute list.
pub open spec fn attributes_of(t: Seq<char>) -> Map<Seq<char>, Seq<char>> {
    attr_pairs_map(regex_captures("(\\w+)\\s*=\\s*\"([^\"]*)\""@, t))
}

/// A map of strings holds the texts of `m`.
pub open spec fn same_attributes(am: Map<Seq<char>, String>, m: Map<Seq<char>, Seq<char>>) -> bool {
    am.dom() == m.dom() && forall|k: Seq<char>| #[trigger] am.contains_key(k) ==> am[k]@ == m[k]
}

/// `a` is the anchor of annotation comment `c` in file `fp`, where `after`
/// are the siblings that follow the comment: its attributes, the kind they
/// give, its line, and the first item among those siblings.
pub open spec fn anchor_from(a: Anchor, c: SyntaxNode, after: Seq<SyntaxNode>, fp: Seq<char>) -> bool {
    &&& (annotation_attrs(c) matches Some(t) && same_attributes(a.attributes@, attributes_of(t)))
    &&& a.kind == kind_of_attributes(a.attributes@)
    &&& a.file_path@ == fp
    &&& a.line == c.span.start_line as usize
    &&& match first_item(after) {
        Some(n) => (a.code_element matches Some(e) && element_of(e, n)),
        None => a.code_element is None,
    }
}

/// The annotation comments of a tree in pre-order, each with the siblings
/// that follow it and the file it is in.
pub open spec fn tree_annotations(n: SyntaxNode, after: Seq<SyntaxNode>, fp: Seq<char>) -> Seq<
    (SyntaxNode, Seq<SyntaxNode>, Seq<char>),
>
    decreases n, 0int,
{
    (if annotation_attrs(n) is Some {
        seq![(n, after, fp)]
    } else {
        Seq::empty()
    }) + forest_annotations(n.children@, n.children@, fp)
}

/// The annotation comments of the first trees `cs` of the siblings `full`.
pub open spec fn forest_annotations(full: Seq<SyntaxNode>, cs: Seq<SyntaxNode>, fp: Seq<char>) -> Seq<
    (SyntaxNode, Seq<SyntaxNode>, Seq<char>),
>
    decreases cs, 1int,
{
    if cs.len() == 0 {
        Seq::empty()
    } else {
        forest_annotations(full, cs.drop_last(), fp) + tree_annotations(
            cs.last(),
            full.skip(cs.len() as int),
            fp,
        )
    }
}

/// The annotation comments of a source file, through the tree the Rust
/// grammar gives it (none without a tree).
pub open spec fn file_annotations(source: Seq<char>, fp: Seq<char>) -> Seq<
    (SyntaxNode, Seq<SyntaxNode>, Seq<char>),
> {
    match rust_syntax_tree(source) {
        Some(t) => tree_annotations(t, Seq::empty(), fp),
        None => Seq::empty(),
    }
}

/// The annotation comments of a list of (path, source) files, in order.
pub open spec fn files_annotations(files: Seq<(Seq<char>, Seq<char>)>) -> Seq<
    (SyntaxNode, Seq<SyntaxNode>, Seq<char>),
>
    decreases files.len(),
{
    if files.len() == 0 {
        Seq::empty()
    } else {
        files_annotations(files.drop_last()) + file_annotations(files.last().1, files.last().0)
    }
}

/// `s` are the anchors of the annotation comments `list`, one for one.
pub open spec fn anchors_from(s: Seq<Anchor>, list: Seq<(SyntaxNode, Seq<SyntaxNode>, Seq<char>)>) -> bool {
    s.len() == list.len() && forall|i: int|
        0 <= i < s.len() ==> anchor_from(#[trigger] s[i], list[i].0, list[i].1, list[i].2)
}

/// `after` is `before` followed by the anchors of `list`.
pub open spec fn anchors_extend(
    after: Seq<Anchor>,
    before: Seq<Anchor>,
    list: Seq<(SyntaxNode, Seq<SyntaxNode>, Seq<char>)>,
) -> bool {
    after.len() == before.len() + list.len() && after.take(before.len() as int) == before
        && anchors_from(after.skip(before.len() as int), list)
}

/// Extending by one list and then another extends by both.
proof fn lemma_extend_trans(
    a: Seq<Anchor>,
    b: Seq<Anchor>,
    c: Seq<Anchor>,
    l1: Seq<(SyntaxNode, Seq<SyntaxNode>, Seq<char>)>,
    l2: Seq<(SyntaxNode, Seq<SyntaxNode>, Seq<char>)>,
)
    requires
        anchors_extend(b, a, l1),
        anchors_extend(c, b, l2),
    ensures
        anchors_extend(c, a, l1 + l2),
{
    assert(c.take(a.len() as int) =~= a) by {
        assert forall|i: int| 0 <= i < a.len() implies c[i] == a[i] by {
            assert(c.take(b.len() as int)[i] == c[i]);
            assert(b.take(a.len() as int)[i] == b[i]);
        }
    }
    let l = l1 + l2;
    let r = c.skip(a.len() as int);
    assert forall|i: int| 0 <= i < r.len() implies anchor_from(
        #[trigger] r[i],
        l[i].0,
        l[i].1,
        l[i].2,
    ) by {
        if i < l1.len() {
            assert(r[i] == b[a.len() + i]) by {
                assert(c.take(b.len() as int)[a.len() + i] == c[a.len() + i]);
            }
            assert(b.skip(a.len() as int)[i] == b[a.len() + i]);
        } else {
            let j = i - l1.len();
            assert(c.skip(b.len() as int)[j] == c[b.len() + j]);
        }
    }
}

/// Nothing extends a sequence by nothing.
proof fn lemma_extend_none(a: Seq<Anchor>)
    ensures
        anchors_extend(a, a, Seq::empty()),
{
    assert(a.take(a.len() as int) =~= a);
}

/// The item kinds differ from one another.
proof fn lemma_item_kinds_differ()
    ensures
        "struct_item"@ != "enum_item"@,
        "struct_item"@ != "function_item"@,
        "struct_item"@ != "field_declaration"@,
        "struct_item"@ != "type_item"@,
        "enum_item"@ != "function_item"@,
        "enum_item"@ != "field_declaration"@,
        "enum_item"@ != "type_item"@,
        "function_item"@ != "field_declaration"@,
        "function_item"@ != "type_item"@,
        "field_declaration"@ != "type_item"@,
{
    reveal_strlit("struct_item");
    reveal_strlit("enum_item");
    reveal_strlit("function_item");
    reveal_strlit("field_declaration");
    reveal_strlit("type_item");
    assert("struct_item"@.len() != "enum_item"@.len());
    assert("struct_item"@.len() != "function_item"@.len());
    assert("struct_item"@.len() != "field_declaration"@.len());
    assert("struct_item"@.len() != "type_item"@.len());
    assert("enum_item"@.len() != "function_item"@.len());
    assert("enum_item"@.len() != "field_declaration"@.len());
    assert("enum_item"@[0] != "type_item"@[0]);
    assert("function_item"@.len() != "field_declaration"@.len());
    assert("function_item"@.len() != "type_item"@.len());
    assert("field_declaration"@.len() != "type_item"@.len());
}

/// The text of the first child of kind `kind`, if there is one.
fn child_text_of(node: &SyntaxNode, kind: &str) -> (r: Option<String>)
    ensures
        opt_view(r) == child_text(node.children@, kind@),
{
    match find_child(node, kind) {
        Some(c) => Some(c.text.clone()),
        None => None,
    }
}

/// The name of an item: the text of its first child of kind `kind`, else `Unknown`.
fn element_name_of(node: &SyntaxNode, kind: &str) -> (r: String)
    ensures
        r@ == match child_text(node.children@, kind@) {
            Some(t) => t,
            None => "Unknown"@,
        },
{
    match find_child(node, kind) {
        Some(c) => c.text.clone(),
        None => "Unknown".to_owned(),
    }
}

/// The return type written in a function's text.
fn return_type(text: &str) -> (r: Option<String>)
    ensures
        opt_view(r) == return_type_of(text@),
{
    proof {
        reveal_strlit("->");
        reveal_strlit("{");
        reveal_strlit("where");
    }
    let v = chars_of(text);
    let arrow: Vec<char> = vec!['-', '>'];
    assert(arrow@ =~= "->"@);
    match find(&v, &arrow) {
        None => None,
        Some(p) => {
            let n = v.len();
            assert(p + 2 <= n);
            let tail = string_from_range(&v, p + 2, n);
            let after = chars_of(tail.as_str());
            assert(after@ =~= text@.subrange(p + 2, text@.len() as int));
            let brace: Vec<char> = vec!['{'];
            assert(brace@ =~= "{"@);
            let wh: Vec<char> = vec!['w', 'h', 'e', 'r', 'e'];
            assert(wh@ =~= "where"@);
            let end = match find(&after, &brace) {
                Some(e) => e,
                None => match find(&after, &wh) {
                    Some(w) => w,
                    None => after.len(),
                },
            };
            proof {
                if let Some(e) = find_spec(after@, "{"@) {
                    assert(end == e);
                }
            }
            let t = trimmed_range(&after, 0, end);
            if chars_of(t.as_str()).len() == 0 {
                None
            } else {
                Some(t)
            }
        },
    }
}

/// The type a field declaration holds, from its first child that names a type.
fn field_type(node: &SyntaxNode) -> (r: Option<String>)
    ensures
        opt_view(r) == match first_type_child(node.children@) {
            Some(c) => Some(c.text@),
            None => None,
        },
{
    let ghost cs = node.children@;
    let mut j: usize = 0;
    assert(cs.skip(0) =~= cs);
    while j < node.children.len()
        invariant
            j <= cs.len(),
            cs == node.children@,
            first_type_child(cs) == first_type_child(cs.skip(j as int)),
        decreases node.children.len() - j,
    {
        let c = &node.children[j];
        assert(cs.skip(j as int)[0] == *c);
        assert(cs.skip(j as int).drop_first() =~= cs.skip(j + 1));
        let k = c.kind.as_str();
        if contains(k, "type") && !str_eq(k, "type_identifier") && !str_eq(k, "visibility_modifier") {
            return Some(c.text.clone());
        }
        j += 1;
    }
    None
}

/// Extract a struct code element.
fn extract_struct_element(node: &SyntaxNode) -> (e: CodeElement)
    requires
        node.kind@ == "struct_item"@,
    ensures
        element_of(e, *node),
{
    proof {
        lemma_item_kinds_differ();
    }
    CodeElement {
        kind: CodeElementKind::Struct,
        name: element_name_of(node, "type_identifier"),
        rust_type: None,
        visibility: child_text_of(node, "visibility_modifier"),
        source: node.text.clone(),
        start_line: node.span.start_line as usize,
        end_line: node.span.end_line as usize,
    }
}

/// Extract an enum code element.
fn extract_enum_element(node: &SyntaxNode) -> (e: CodeElement)
    requires
        node.kind@ == "enum_item"@,
    ensures
        element_of(e, *node),
{
    proof {
        lemma_item_kinds_differ();
    }
    CodeElement {
        kind: CodeElementKind::Enum,
        name: element_name_of(node, "type_identifier"),
        rust_type: None,
        visibility: child_text_of(node, "visibility_modifier"),
        source: node.text.clone(),
        start_line: node.span.start_line as usize,
        end_line: node.span.end_line as usize,
    }
}

/// Extract a function code element, with the type it returns.
fn extract_function_element(node: &SyntaxNode) -> (e: CodeElement)
    requires
        node.kind@ == "function_item"@,
    ensures
        element_of(e, *node),
{
    proof {
        lemma_item_kinds_differ();
    }
    CodeElement {
        kind: CodeElementKind::Function,
        name: element_name_of(node, "identifier"),
        rust_type: return_type(node.text.as_str()),
        visibility: child_text_of(node, "visibility_modifier"),
        source: node.text.clone(),
        start_line: node.span.start_line as usize,
        end_line: node.span.end_line as usize,
    }
}

/// Extract a field code element, with the type it holds.
fn extract_field_element(node: &SyntaxNode) -> (e: CodeElement)
    requires
        node.kind@ == "field_declaration"@,
    ensures
        element_of(e, *node),
{
    proof {
        lemma_item_kinds_differ();
    }
    CodeElement {
        kind: CodeElementKind::Field,
        name: element_name_of(node, "field_identifier"),
        rust_type: field_type(node),
        visibility: child_text_of(node, "visibility_modifier"),
        source: node.text.clone(),
        start_line: node.span.start_line as usize,
        end_line: node.span.end_line as usize,
    }
}

/// Extract a type alias code element.
fn extract_type_alias_element(node: &SyntaxNode) -> (e: CodeElement)
    requires
        node.kind@ == "type_item"@,
    ensures
        element_of(e, *node),
{
    proof {
        lemma_item_kinds_differ();
    }
    CodeElement {
        kind: CodeElementKind::TypeAlias,
        name: element_name_of(node, "type_identifier"),
        rust_type: None,
        visibility: child_text_of(node, "visibility_modifier"),
        source: node.text.clone(),
        start_line: node.span.start_line as usize,
        end_line: node.span.end_line as usize,
    }
}

/// Find the code element an annotation comment attaches to: the first of
/// the siblings that follow it that is a struct, enum, function, field or
/// type alias.
fn find_associated_element(siblings: &Vec<SyntaxNode>, next: usize) -> (r: Option<CodeElement>)
    requires
        next <= siblings@.len(),
    ensures
        match first_item(siblings@.skip(next as int)) {
            Some(n) => (r matches Some(e) && element_of(e, n)),
            None => r is None,
        },
{
    let ghost cs = siblings@;
    let mut j: usize = next;
    while j < siblings.len()
        invariant
            next <= j <= cs.len(),
            cs == siblings@,
            first_item(cs.skip(next as int)) == first_item(cs.skip(j as int)),
        decreases siblings.len() - j,
    {
        let c = &siblings[j];
        assert(cs.skip(j as int)[0] == *c);
        assert(cs.skip(j as int).drop_first() =~= cs.skip(j + 1));
        let k = c.kind.as_str();
        if str_eq(k, "struct_item") {
            return Some(extract_struct_element(c));
        } else if str_eq(k, "enum_item") {
            return Some(extract_enum_element(c));
        } else if str_eq(k, "function_item") {
            return Some(extract_function_element(c));
        } else if str_eq(k, "field_declaration") {
            return Some(extract_field_element(c));
        } else if str_eq(k, "type_item") {
            return Some(extract_type_alias_element(c));
        }
        j += 1;
    }
    None
}

/// Read the attributes of an attribute list, a later key replacing an earlier one.
fn parse_attributes(attrs: &str) -> (m: StrMap<String>)
    ensures
        same_attributes(m@, attributes_of(attrs@)),
{
    let pairs = captures_all("(\\w+)\\s*=\\s*\"([^\"]*)\"", attrs);
    attributes_from_matches(&pairs)
}

/// The attributes that `key = "value"` matches give: each match with both
/// groups sets its key to its value, a later key replacing an earlier one.
pub fn attributes_from_matches(pairs: &Vec<RegexMatch>) -> (m: StrMap<String>)
    ensures
        same_attributes(m@, attr_pairs_map(match_views(pairs@))),
{
    let ghost caps = match_views(pairs@);
    let mut m: StrMap<String> = StrMap::new();
    let mut i: usize = 0;
    assert(caps.take(0) =~= Seq::<(usize, Option<Seq<char>>, Option<Seq<char>>)>::empty());
    while i < pairs.len()
        invariant
            i <= pairs@.len(),
            caps == match_views(pairs@),
            same_attributes(m@, attr_pairs_map(caps.take(i as int))),
        decreases pairs.len() - i,
    {
        proof {
            assert(caps.take(i + 1).drop_last() =~= caps.take(i as int));
            assert(caps.take(i + 1).last() == caps[i as int]);
        }
        let ghost m0 = attr_pairs_map(caps.take(i as int));
        match (&pairs[i].group1, &pairs[i].group2) {
            (Some(k), Some(v)) => {
                m.insert(k.clone(), v.clone());
                proof {
                    let m1 = attr_pairs_map(caps.take(i + 1));
                    assert(m1 == m0.insert(k@, v@));
                    assert(m@.dom() =~= m1.dom());
                }
            },
            _ => {},
        }
        i += 1;
    }
    assert(caps.take(pairs@.len() as int) =~= caps);
    m
}

/// Read the anchor of an annotation comment, the siblings from `next` on
/// following it.
fn read_anchor(c: &SyntaxNode, siblings: &Vec<SyntaxNode>, next: usize, file_path: &str) -> (r: Option<Anchor>)
    requires
        next <= siblings@.len(),
    ensures
        match r {
            Some(a) => annotation_attrs(*c) is Some && anchor_from(
                a,
                *c,
                siblings@.skip(next as int),
                file_path@,
            ),
            None => annotation_attrs(*c) is None,
        },
{
    if !(str_eq(c.kind.as_str(), "line_comment") || str_eq(c.kind.as_str(), "block_comment")) {
        return None;
    }
    let caps = captures_all("@topos\\s*\\(\\s*([^)]*)\\s*\\)", c.text.as_str());
    if caps.len() == 0 {
        return None;
    }
    assert(match_views(caps@)[0] == crate::regex_match::match_view(caps@[0]));
    proof {
        reveal_strlit("");
    }
    let attributes = match &caps[0].group1 {
        Some(g) => parse_attributes(g.as_str()),
        None => parse_attributes(""),
    };
    let kind = AnchorKind::from_attributes(&attributes);
    let code_element = find_associated_element(siblings, next);
    assert(""@ =~= Seq::<char>::empty());
    assert(annotation_attrs(*c) is Some);
    assert(same_attributes(attributes@, attributes_of(annotation_attrs(*c)->0)));
    Some(
        Anchor {
            kind,
            attributes,
            file_path: file_path.to_owned(),
            line: c.span.start_line as usize,
            code_element,
        },
    )
}

/// Recursively extract anchors from a syntax tree node, the siblings from
/// `next` on following it.
fn extract_from_node(
    node: &SyntaxNode,
    siblings: &Vec<SyntaxNode>,
    next: usize,
    file_path: &str,
    collection: &mut AnchorCollection,
)
    requires
        next <= siblings@.len(),
        old(collection).well_formed(),
    ensures
        final(collection).well_formed(),
        anchors_extend(
            final(collection)@,
            old(collection)@,
            tree_annotations(*node, siblings@.skip(next as int), file_path@),
        ),
    decreases node,
{
    let ghost o0 = collection@;
    let ghost fp = file_path@;
    let ghost own: Seq<(SyntaxNode, Seq<SyntaxNode>, Seq<char>)> = if annotation_attrs(
        *node,
    ) is Some {
        seq![(*node, siblings@.skip(next as int), fp)]
    } else {
        Seq::empty()
    };
    match read_anchor(node, siblings, next, file_path) {
        Some(a) => {
            collection.add(a);
            proof {
                let c = collection@;
                assert(c.take(o0.len() as int) =~= o0);
                assert(c.skip(o0.len() as int) =~= seq![a]);
            }
        },
        None => {
            proof {
                lemma_extend_none(o0);
            }
        },
    }
    let ghost o1 = collection@;
    let ghost cs = node.children@;
    let mut i: usize = 0;
    proof {
        lemma_extend_none(o1);
        assert(cs.take(0) =~= Seq::<SyntaxNode>::empty());
    }
    while i < node.children.len()
        invariant
            i <= cs.len(),
            cs == node.children@,
            fp == file_path@,
            collection.well_formed(),
            anchors_extend(collection@, o1, forest_annotations(cs, cs.take(i as int), fp)),
        decreases node.children.len() - i,
    {
        let ghost before = collection@;
        proof {
            assert(cs.take(i + 1).drop_last() =~= cs.take(i as int));
            assert(cs.take(i + 1).last() == cs[i as int]);
        }
        extract_from_node(&node.children[i], &node.children, i + 1, file_path, collection);
        proof {
            lemma_extend_trans(
                o1,
                before,
                collection@,
                forest_annotations(cs, cs.take(i as int), fp),
                tree_annotations(cs[i as int], cs.skip(i + 1), fp),
            );
        }
        i += 1;
    }
    proof {
        assert(cs.take(cs.len() as int) =~= cs);
        lemma_extend_trans(o0, o1, collection@, own, forest_annotations(cs, cs, fp));
    }
}

/// Extract anchors from the Rust syntax tree of one file, adding them to `collection`.
fn extract_into(source: &str, file_path: &str, collection: &mut AnchorCollection)
    requires
        old(collection).well_formed(),
    ensures
        final(collection).well_formed(),
        anchors_extend(final(collection)@, old(collection)@, file_annotations(source@, file_path@)),
{
    match parse_rust(source) {
        Some(tree) => {
            let none: Vec<SyntaxNode> = Vec::new();
            assert(none@.skip(0) =~= Seq::<SyntaxNode>::empty());
            extract_from_node(&tree, &none, 0, file_path, collection);
        },
        None => {
            proof {
                lemma_extend_none(collection@);
            }
        },
    }
}

/// Extract the anchors of a parsed Rust file: one per `@topos( ... )`
/// comment, in pre-order, each with its attributes, its line and the item
/// that follows it.
pub fn extract_anchors_from_tree(root: &SyntaxNode, file_path: &str) -> (c: AnchorCollection)
    ensures
        c.well_formed(),
        anchors_from(c@, tree_annotations(*root, Seq::empty(), file_path@)),
{
    let mut c = AnchorCollection::new();
    let none: Vec<SyntaxNode> = Vec::new();
    assert(none@.skip(0) =~= Seq::<SyntaxNode>::empty());
    extract_from_node(root, &none, 0, file_path, &mut c);
    assert(c@.skip(0) =~= c@);
    c
}

/// Extract anchors from a Rust source file, parsed with tree-sitter's Rust
/// grammar; none where the parser gives no tree.
pub fn extract_anchors(source: &str, file_path: &str) -> (c: AnchorCollection)
    ensures
        c.well_formed(),
        anchors_from(c@, file_annotations(source@, file_path@)),
{
    let mut c = AnchorCollection::new();
    extract_into(source, file_path, &mut c);
    assert(c@.skip(0) =~= c@);
    c
}

/// The (path, source) pairs of a list of files, taken by their views.
pub open spec fn file_views(files: Seq<(String, String)>) -> Seq<(Seq<char>, Seq<char>)> {
    files.map_values(|f: (String, String)| (f.0@, f.1@))
}

/// Extract anchors from several files, given as (path, source) pairs, in order.
pub fn extract_anchors_from_files(files: &[(String, String)]) -> (c: AnchorCollection)
    ensures
        c.well_formed(),
        anchors_from(c@, files_annotations(file_views(files@))),
{
    let ghost fs = file_views(files@);
    let mut c = AnchorCollection::new();
    let mut i: usize = 0;
    proof {
        assert(c@ =~= Seq::<Anchor>::empty());
        lemma_extend_none(c@);
        assert(fs.take(0) =~= Seq::<(Seq<char>, Seq<char>)>::empty());
    }
    while i < files.len()
        invariant
            i <= files@.len(),
            fs == file_views(files@),
            c.well_formed(),
            anchors_extend(c@, Seq::empty(), files_annotations(fs.take(i as int))),
        decreases files.len() - i,
    {
        let ghost before = c@;
        proof {
            assert(fs.take(i + 1).drop_last() =~= fs.take(i as int));
            assert(fs.take(i + 1).last() == fs[i as int]);
            assert(fs[i as int] == (files@[i as int].0@, files@[i as int].1@));
        }
        extract_into(files[i].1.as_str(), files[i].0.as_str(), &mut c);
        proof {
            lemma_extend_trans(
                Seq::empty(),
                before,
                c@,
                files_annotations(fs.take(i as int)),
                file_annotations(fs[i as int].1, fs[i as int].0),
            );
        }
        i += 1;
    }
    assert(fs.take(files@.len() as int) =~= fs);
    assert(c@.skip(0) =~= c@);
    c
}


// ============================================================================
// Checking anchors against a specification
// ============================================================================

/// The label of an anchor kind.
pub open spec fn anchor_kind_label(k: AnchorKind) -> Seq<char> {
    match k {
        AnchorKind::Concept => "concept"@,
        AnchorKind::Behavior => "behavior"@,
        AnchorKind::Field => "field"@,
        AnchorKind::Requirement => "requirement"@,
        AnchorKind::Unknown => "unknown"@,
    }
}

/// The label of a reference kind.
pub open spec fn reference_kind_label(k: AnchorReferenceKind) -> Seq<char> {
    match k {
        AnchorReferenceKind::Requirement => "requirement"@,
        AnchorReferenceKind::Concept => "concept"@,
        AnchorReferenceKind::Behavior => "behavior"@,
    }
}

impl Anchor {
    /// The kind of the anchor, as a word.
    pub fn kind_str(&self) -> (r: &'static str)
        ensures
            r@ == anchor_kind_label(self.kind),
    {
        match self.kind {
            AnchorKind::Concept => "concept",
            AnchorKind::Behavior => "behavior",
            AnchorKind::Field => "field",
            AnchorKind::Requirement => "requirement",
            AnchorKind::Unknown => "unknown",
        }
    }

    /// The requirements the anchor says it implements: its `implements`
    /// attribute, when it has one.
    pub fn implements(&self) -> (r: Vec<&str>)
        ensures
            r@.map_values(|x: &str| x@) == match anchor_attr(*self, "implements"@) {
                Some(v) => seq![v],
                None => Seq::empty(),
            },
    {
        let mut r: Vec<&str> = Vec::new();
        match self.get("implements") {
            Some(v) => {
                r.push(v);
            },
            None => {},
        }
        assert(r@.map_values(|x: &str| x@) =~= match anchor_attr(*self, "implements"@) {
            Some(v) => seq![v],
            None => Seq::<Seq<char>>::empty(),
        });
        r
    }
}

impl OrphanSpecElement {
    /// The kind of the element, as a word.
    pub fn kind_str(&self) -> (r: &'static str)
        ensures
            r@ == reference_kind_label(self.kind),
    {
        match self.kind {
            AnchorReferenceKind::Requirement => "requirement",
            AnchorReferenceKind::Concept => "concept",
            AnchorReferenceKind::Behavior => "behavior",
        }
    }
}

impl AnchorCollection {
    /// The `i`-th anchor.
    pub fn at(&self, i: usize) -> (a: &Anchor)
        requires
            i < self@.len(),
        ensures
            *a == self@[i as int],
    {
        &self.anchors[i]
    }

    /// The anchors, in the order they were added.
    pub fn into_anchors(self) -> (v: Vec<Anchor>)
        ensures
            v@ == self@,
    {
        self.anchors
    }

    /// A collection of the given anchors, in order.
    pub fn from_anchors(anchors: Vec<Anchor>) -> (c: Self)
        ensures
            c@ == anchors@,
            c.well_formed(),
    {
        let ghost all = anchors@;
        let n = anchors.len();
        let mut rest = anchors;
        let mut c = AnchorCollection::new();
        let mut k: usize = 0;
        assert(all.take(0) =~= c@);
        assert(all.skip(0) =~= rest@);
        while rest.len() > 0
            invariant
                k <= all.len(),
                all.len() == n,
                rest@ == all.skip(k as int),
                c@ == all.take(k as int),
                c.well_formed(),
            decreases rest.len(),
        {
            let a = rest.remove(0);
            let ghost ga = a;
            c.add(a);
            proof {
                assert(ga == all[k as int]);
                assert(all.take(k + 1) =~= all.take(k as int).push(all[k as int]));
                assert(rest@ =~= all.skip(k + 1));
            }
            k = k + 1;
        }
        assert(all.take(k as int) =~= all);
        c
    }
}

/// The references an anchor makes: its requirement, its concept and its
/// behavior, in that order, those it names.
pub open spec fn anchor_refs(a: Anchor) -> Seq<(AnchorReferenceKind, Seq<char>)> {
    (match anchor_req_id(a) {
        Some(r) => seq![(AnchorReferenceKind::Requirement, r)],
        None => Seq::empty(),
    }) + (match anchor_attr(a, "concept"@) {
        Some(c) => seq![(AnchorReferenceKind::Concept, c)],
        None => Seq::empty(),
    }) + (match anchor_attr(a, "behavior"@) {
        Some(b) => seq![(AnchorReferenceKind::Behavior, b)],
        None => Seq::empty(),
    })
}

/// A reference names an element of the specification.
pub open spec fn resolves(t: TableModel, k: AnchorReferenceKind, name: Seq<char>) -> bool {
    match k {
        AnchorReferenceKind::Requirement => t.requirements.contains_key(name),
        AnchorReferenceKind::Concept => t.concepts.contains_key(name),
        AnchorReferenceKind::Behavior => t.behaviors.contains_key(name),
    }
}

/// The references of one anchor that do not resolve, in order.
pub open spec fn unresolved_refs(t: TableModel, refs: Seq<(AnchorReferenceKind, Seq<char>)>) -> Seq<
    (AnchorReferenceKind, Seq<char>),
>
    decreases refs.len(),
{
    if refs.len() == 0 {
        Seq::empty()
    } else {
        let rest = unresolved_refs(t, refs.drop_last());
        if resolves(t, refs.last().0, refs.last().1) {
            rest
        } else {
            rest.push(refs.last())
        }
    }
}

/// What an invalid anchor says: where the anchor is, and the reference
/// that does not resolve.
pub open spec fn invalid_view(i: InvalidAnchor) -> (Seq<char>, usize, AnchorKind, AnchorReferenceKind, Seq<char>) {
    (i.anchor.file_path@, i.anchor.line, i.anchor.kind, i.reference_kind, i.unresolved_reference@)
}

/// The unresolved references of the anchors `s`, anchor by anchor.
pub open spec fn invalid_of(t: TableModel, s: Seq<Anchor>) -> Seq<(Seq<char>, usize, AnchorKind, AnchorReferenceKind, Seq<char>)>
    decreases s.len(),
{
    if s.len() == 0 {
        Seq::empty()
    } else {
        let a = s.last();
        invalid_of(t, s.drop_last()) + unresolved_refs(t, anchor_refs(a)).map_values(
            |r: (AnchorReferenceKind, Seq<char>)| (a.file_path@, a.line, a.kind, r.0, r.1),
        )
    }
}

/// The positions of the anchors of `s` whose references all resolve.
pub open spec fn valid_of(t: TableModel, s: Seq<Anchor>) -> Seq<usize>
    decreases s.len(),
{
    if s.len() == 0 {
        Seq::empty()
    } else if unresolved_refs(t, anchor_refs(s.last())).len() == 0 {
        valid_of(t, s.drop_last()).push((s.len() - 1) as usize)
    } else {
        valid_of(t, s.drop_last())
    }
}

/// Some anchor makes reference `(k, name)`.
pub open spec fn referenced(s: Seq<Anchor>, k: AnchorReferenceKind, name: Seq<char>) -> bool {
    exists|i: int| 0 <= i < s.len() && anchor_refs(s[i]).contains((k, name))
}

/// The names among `names` that no anchor references as a `k`.
pub open spec fn orphans_of(s: Seq<Anchor>, k: AnchorReferenceKind, names: Seq<Seq<char>>) -> Seq<(AnchorReferenceKind, Seq<char>)>
    decreases names.len(),
{
    if names.len() == 0 {
        Seq::empty()
    } else {
        let rest = orphans_of(s, k, names.drop_last());
        if referenced(s, k, names.last()) {
            rest
        } else {
            rest.push((k, names.last()))
        }
    }
}

/// What an orphan says.
pub open spec fn orphan_view(o: OrphanSpecElement) -> (AnchorReferenceKind, Seq<char>) {
    (o.kind, o.name@)
}

/// The references an anchor makes.
fn refs_of(a: &Anchor) -> (r: Vec<(AnchorReferenceKind, String)>)
    ensures
        r@.map_values(|x: (AnchorReferenceKind, String)| (x.0, x.1@)) == anchor_refs(*a),
{
    let mut r: Vec<(AnchorReferenceKind, String)> = Vec::new();
    match a.req_id() {
        Some(v) => r.push((AnchorReferenceKind::Requirement, owned(v))),
        None => {},
    }
    let ghost r1 = r@;
    match a.concept_name() {
        Some(v) => r.push((AnchorReferenceKind::Concept, owned(v))),
        None => {},
    }
    let ghost r2 = r@;
    match a.behavior_name() {
        Some(v) => r.push((AnchorReferenceKind::Behavior, owned(v))),
        None => {},
    }
    assert(r@.map_values(|x: (AnchorReferenceKind, String)| (x.0, x.1@)) =~= anchor_refs(*a));
    r
}

/// Whether a reference names an element of the specification.
fn resolves_in(symbols: &SymbolTable, k: AnchorReferenceKind, name: &str) -> (b: bool)
    ensures
        b == resolves(symbols@, k, name@),
{
    match k {
        AnchorReferenceKind::Requirement => symbols.get_requirement(name).is_some(),
        AnchorReferenceKind::Concept => symbols.get_concept(name).is_some(),
        AnchorReferenceKind::Behavior => symbols.get_behavior(name).is_some(),
    }
}

/// Whether some anchor makes reference `(k, name)`.
fn is_referenced(anchors: &AnchorCollection, k: AnchorReferenceKind, name: &str) -> (b: bool)
    ensures
        b == referenced(anchors@, k, name@),
{
    let mut i: usize = 0;
    while i < anchors.anchors.len()
        invariant
            i <= anchors@.len(),
            anchors@ == anchors.anchors@,
            forall|j: int| 0 <= j < i ==> !anchor_refs(anchors@[j]).contains((k, name@)),
        decreases anchors.anchors.len() - i,
    {
        let refs = refs_of(&anchors.anchors[i]);
        let ghost rv = refs@.map_values(|x: (AnchorReferenceKind, String)| (x.0, x.1@));
        let mut j: usize = 0;
        assert(rv == anchor_refs(anchors@[i as int]));
        while j < refs.len()
            invariant
                j <= refs@.len(),
                i < anchors@.len(),
                rv == refs@.map_values(|x: (AnchorReferenceKind, String)| (x.0, x.1@)),
                rv == anchor_refs(anchors@[i as int]),
                forall|m: int| 0 <= m < j ==> rv[m] != (k, name@),
            decreases refs.len() - j,
        {
            if refs[j].0 == k && crate::text::str_eq(refs[j].1.as_str(), name) {
                assert(rv[j as int] == (k, name@));
                assert(rv.contains((k, name@)));
                return true;
            }
            j += 1;
        }
        assert(!rv.contains((k, name@)));
        i += 1;
    }
    false
}

/// Append the elements of a kind, in table order, that no anchor references.
fn push_orphans(
    anchors: &AnchorCollection,
    m: &StrMap<crate::symbols::Symbol>,
    k: AnchorReferenceKind,
    out: &mut Vec<OrphanSpecElement>,
)
    ensures
        final(out)@.map_values(|o: OrphanSpecElement| orphan_view(o)) == old(out)@.map_values(
            |o: OrphanSpecElement| orphan_view(o),
        ) + orphans_of(anchors@, k, m.key_seq()),
{
    let ghost start = out@.map_values(|o: OrphanSpecElement| orphan_view(o));
    let ghost keys = m.key_seq();
    let n = m.len();
    let mut i: usize = 0;
    while i < n
        invariant
            i <= n,
            n == m.entry_seq().len(),
            keys == m.key_seq(),
            out@.map_values(|o: OrphanSpecElement| orphan_view(o)) == start + orphans_of(anchors@, k, keys.take(i as int)),
        decreases n - i,
    {
        proof {
            assert(keys.take(i + 1).drop_last() =~= keys.take(i as int));
            assert(keys.take(i + 1).last() == keys[i as int]);
        }
        let name = m.key_at(i);
        assert(keys[i as int] == name@);
        if !is_referenced(anchors, k, name.as_str()) {
            let ghost o0 = out@;
            let o = OrphanSpecElement { kind: k, name: name.clone() };
            out.push(o);
            assert(out@.map_values(|o: OrphanSpecElement| orphan_view(o)) =~= o0.map_values(
                |o: OrphanSpecElement| orphan_view(o),
            ).push((k, name@)));
        }
        i += 1;
    }
    assert(keys.take(n as int) =~= keys);
}

/// An anchor is counted valid exactly when none of its references is
/// reported invalid, so all anchors are valid if and only if no invalid
/// reference is reported.
pub proof fn all_valid_iff_none_invalid(t: TableModel, s: Seq<Anchor>)
    ensures
        valid_of(t, s).len() <= s.len(),
        (invalid_of(t, s).len() == 0) == (valid_of(t, s).len() == s.len()),
    decreases s.len(),
{
    if s.len() > 0 {
        all_valid_iff_none_invalid(t, s.drop_last());
    }
}

/// Check anchors against a specification's symbols: each reference that
/// names no requirement, concept or behavior of the specification makes
/// its anchor invalid; anchors whose references all resolve are valid; and
/// each requirement, concept and behavior (in that order, each in table
/// order) that no anchor references is an orphan.
pub fn validate_anchors(anchors: &AnchorCollection, symbols: &SymbolTable) -> (v: AnchorValidation)
    ensures
        v.valid@ == valid_of(symbols@, anchors@),
        v.invalid@.map_values(|i: InvalidAnchor| invalid_view(i)) == invalid_of(symbols@, anchors@),
        v.orphan_spec_elements@.map_values(|o: OrphanSpecElement| orphan_view(o)) == orphans_of(
            anchors@,
            AnchorReferenceKind::Requirement,
            symbols.requirements.key_seq(),
        ) + orphans_of(anchors@, AnchorReferenceKind::Concept, symbols.concepts.key_seq())
            + orphans_of(anchors@, AnchorReferenceKind::Behavior, symbols.behaviors.key_seq()),
        forall|i: int| 0 <= i < v.invalid@.len() ==> #[trigger] v.invalid@[i].suggestions@.len() == 0,
{
    let ghost all = anchors@;
    let mut valid: Vec<usize> = Vec::new();
    let mut invalid: Vec<InvalidAnchor> = Vec::new();
    let mut i: usize = 0;
    assert(all.take(0) =~= Seq::<Anchor>::empty());
    assert(invalid@.map_values(|x: InvalidAnchor| invalid_view(x)) =~= invalid_of(symbols@, all.take(0)));
    while i < anchors.anchors.len()
        invariant
            i <= all.len(),
            all == anchors@,
            all == anchors.anchors@,
            valid@ == valid_of(symbols@, all.take(i as int)),
            invalid@.map_values(|x: InvalidAnchor| invalid_view(x)) == invalid_of(symbols@, all.take(i as int)),
            forall|j: int| 0 <= j < invalid@.len() ==> #[trigger] invalid@[j].suggestions@.len() == 0,
        decreases anchors.anchors.len() - i,
    {
        proof {
            assert(all.take(i + 1).drop_last() =~= all.take(i as int));
            assert(all.take(i + 1).last() == all[i as int]);
        }
        let a = &anchors.anchors[i];
        let refs = refs_of(a);
        let ghost rv = refs@.map_values(|x: (AnchorReferenceKind, String)| (x.0, x.1@));
        let ghost base = invalid@.map_values(|x: InvalidAnchor| invalid_view(x));
        let ghost f = |r: (AnchorReferenceKind, Seq<char>)| (a.file_path@, a.line, a.kind, r.0, r.1);
        let mut any_invalid = false;
        let mut j: usize = 0;
        assert(rv.take(0) =~= Seq::<(AnchorReferenceKind, Seq<char>)>::empty());
        while j < refs.len()
            invariant
                j <= refs@.len(),
                rv == refs@.map_values(|x: (AnchorReferenceKind, String)| (x.0, x.1@)),
                f == (|r: (AnchorReferenceKind, Seq<char>)| (a.file_path@, a.line, a.kind, r.0, r.1)),
                any_invalid == (unresolved_refs(symbols@, rv.take(j as int)).len() > 0),
                invalid@.map_values(|x: InvalidAnchor| invalid_view(x)) == base + unresolved_refs(
                    symbols@,
                    rv.take(j as int),
                ).map_values(f),
                forall|m: int| 0 <= m < invalid@.len() ==> #[trigger] invalid@[m].suggestions@.len() == 0,
            decreases refs.len() - j,
        {
            proof {
                assert(rv.take(j + 1).drop_last() =~= rv.take(j as int));
                assert(rv.take(j + 1).last() == rv[j as int]);
            }
            if !resolves_in(symbols, refs[j].0, refs[j].1.as_str()) {
                let ghost o0 = invalid@;
                let x = InvalidAnchor {
                    anchor: a.clone(),
                    reference_kind: refs[j].0,
                    unresolved_reference: refs[j].1.clone(),
                    suggestions: Vec::new(),
                };
                invalid.push(x);
                any_invalid = true;
                proof {
                    let u0 = unresolved_refs(symbols@, rv.take(j as int));
                    assert(unresolved_refs(symbols@, rv.take(j + 1)) == u0.push(rv[j as int]));
                    assert(u0.push(rv[j as int]).map_values(f) =~= u0.map_values(f).push(f(rv[j as int])));
                    assert(invalid@.map_values(|x: InvalidAnchor| invalid_view(x)) =~= o0.map_values(
                        |x: InvalidAnchor| invalid_view(x),
                    ).push(invalid_view(x)));
                }
            }
            j += 1;
        }
        assert(rv.take(rv.len() as int) =~= rv);
        if !any_invalid {
            valid.push(i);
        }
        i += 1;
    }
    assert(all.take(all.len() as int) =~= all);
    let mut orphans: Vec<OrphanSpecElement> = Vec::new();
    assert(orphans@.map_values(|o: OrphanSpecElement| orphan_view(o)) =~= Seq::<(AnchorReferenceKind, Seq<char>)>::empty());
    push_orphans(anchors, &symbols.requirements, AnchorReferenceKind::Requirement, &mut orphans);
    push_orphans(anchors, &symbols.concepts, AnchorReferenceKind::Concept, &mut orphans);
    push_orphans(anchors, &symbols.behaviors, AnchorReferenceKind::Behavior, &mut orphans);
    AnchorValidation { valid, invalid, orphan_spec_elements: orphans }
}

/// Adding an anchor to a collection whose anchors are `s`: the anchors of its
/// file gain it at the end and those of every other file stay as they were;
/// the last anchor with attribute `key` equal to `v` becomes the new one when
/// it has that attribute (the latest wins) and stays the same otherwise. With
/// `from_file`, `concept` and `behavior`, whose results are these functions of
/// the view, and `add`, which pushes onto the view, this is what the lookups
/// give before and after an `add`.
pub proof fn added_anchor_extends_lookups(s: Seq<Anchor>, a: Anchor, p: Seq<char>, key: Seq<char>, v: Seq<char>)
    requires
        s.len() < usize::MAX,
    ensures
        indices_in_file(s.push(a), p).map_values(|i: usize| s.push(a)[i as int]) == if a.file_path@ == p {
            indices_in_file(s, p).map_values(|i: usize| s[i as int]).push(a)
        } else {
            indices_in_file(s, p).map_values(|i: usize| s[i as int])
        },
        last_with_attr(s.push(a), key, v) == if anchor_attr(a, key) == Some(v) {
            Some(s.len() as int)
        } else {
            last_with_attr(s, key, v)
        },
        last_with_attr(s, key, v) matches Some(i) ==> 0 <= i < s.len() && s.push(a)[i] == s[i],
{
    lemma_last_with_attr(s, key, v);
    let t = s.push(a);
    assert(t.drop_last() =~= s);
    lemma_indices_in_file_bounded(s, p);
    let before = indices_in_file(s, p);
    let old_list = before.map_values(|i: usize| s[i as int]);
    let new_list = indices_in_file(t, p).map_values(|i: usize| t[i as int]);
    let want = if a.file_path@ == p {
        old_list.push(a)
    } else {
        old_list
    };
    assert forall|k: int| 0 <= k < before.len() implies t[before[k] as int] == s[before[k] as int] by {
        assert(before[k] < s.len());
    }
    assert(new_list =~= want);
}

/// The first boundary line below `line` lies at or above every concept or
/// behavior anchor of `file` below `line`, and is the line of one of them
/// unless there is none (then it is `usize::MAX`).
proof fn lemma_next_boundary(s: Seq<Anchor>, file: Seq<char>, line: usize)
    ensures
        forall|x: Anchor|
            s.contains(x) && (x.kind == AnchorKind::Concept || x.kind == AnchorKind::Behavior) && x.file_path@
                == file && x.line > line ==> next_boundary(s, file, line) <= x.line,
    decreases s.len(),
{
    if s.len() > 0 {
        let rest = s.drop_last();
        lemma_next_boundary(rest, file, line);
        assert forall|x: Anchor|
            s.contains(x) && (x.kind == AnchorKind::Concept || x.kind == AnchorKind::Behavior) && x.file_path@
                == file && x.line > line implies next_boundary(s, file, line) <= x.line by {
            let k = choose|k: int| 0 <= k < s.len() && s[k] == x;
            if k < s.len() - 1 {
                assert(rest[k] == x);
                assert(rest.contains(x));
            }
        }
    }
}

/// The first boundary line below `line` is `usize::MAX` or the line of a
/// concept or behavior anchor of `file` below `line`.
proof fn lemma_next_boundary_attained(s: Seq<Anchor>, file: Seq<char>, line: usize)
    ensures
        next_boundary(s, file, line) == usize::MAX || exists|k: int|
            0 <= k < s.len() && (s[k].kind == AnchorKind::Concept || s[k].kind == AnchorKind::Behavior)
                && s[k].file_path@ == file && s[k].line > line && s[k].line == next_boundary(s, file, line),
    decreases s.len(),
{
    if s.len() > 0 {
        let rest = s.drop_last();
        lemma_next_boundary_attained(rest, file, line);
        if next_boundary(s, file, line) == next_boundary(rest, file, line) && next_boundary(rest, file, line)
            != usize::MAX {
            let k = choose|k: int|
                0 <= k < rest.len() && (rest[k].kind == AnchorKind::Concept || rest[k].kind == AnchorKind::Behavior)
                    && rest[k].file_path@ == file && rest[k].line > line && rest[k].line == next_boundary(
                    rest,
                    file,
                    line,
                );
            assert(s[k] == rest[k]);
        } else if next_boundary(s, file, line) != usize::MAX {
            assert(s[s.len() - 1] == s.last());
        }
    }
}

/// The fields of the concept anchor named `name` (the last one with that
/// name): a field anchor of its file below it is listed exactly when no
/// concept or behavior anchor of that file stands between the two (and it is
/// not on the last possible line). So a field anchor never belongs to a
/// concept anchor that another concept or behavior anchor separates it from.
pub proof fn concept_fields_stop_at_the_next_concept_or_behavior(s: Seq<Anchor>, name: Seq<char>)
    ensures
        last_with_attr(s, "concept"@, name) matches Some(i) ==> forall|f: Anchor|
            #[trigger] concept_fields(s, name).contains(f) <==> {
                &&& s.contains(f)
                &&& f.kind == AnchorKind::Field
                &&& f.file_path@ == s[i].file_path@
                &&& s[i].line < f.line < usize::MAX
                &&& forall|x: Anchor|
                    #![trigger s.contains(x)]
                    s.contains(x) && (x.kind == AnchorKind::Concept || x.kind == AnchorKind::Behavior)
                        && x.file_path@ == s[i].file_path@ && x.line > s[i].line ==> f.line < x.line
            },
        last_with_attr(s, "concept"@, name) is None ==> concept_fields(s, name).len() == 0,
{
    if let Some(i) = last_with_attr(s, "concept"@, name) {
        let file = s[i].file_path@;
        let line = s[i].line;
        let nb = next_boundary(s, file, line);
        let p = |a: Anchor| field_between(a, file, line, nb);
        assert(concept_fields(s, name) == s.filter(p)) by {
            assert((|a: Anchor| field_between(a, s[i].file_path@, s[i].line, next_boundary(s, s[i].file_path@, s[i].line))) =~= p);
        }
        crate::text::lemma_filter_contains_iff(s, p);
        lemma_next_boundary(s, file, line);
        lemma_next_boundary_attained(s, file, line);
        assert forall|f: Anchor| #[trigger] concept_fields(s, name).contains(f) <==> {
            &&& s.contains(f)
            &&& f.kind == AnchorKind::Field
            &&& f.file_path@ == file
            &&& line < f.line < usize::MAX
            &&& forall|x: Anchor|
                #![trigger s.contains(x)]
                s.contains(x) && (x.kind == AnchorKind::Concept || x.kind == AnchorKind::Behavior)
                    && x.file_path@ == file && x.line > line ==> f.line < x.line
        } by {
            if s.contains(f) && f.kind == AnchorKind::Field && f.file_path@ == file && line < f.line < usize::MAX
                && (forall|x: Anchor|
                #![trigger s.contains(x)]
                s.contains(x) && (x.kind == AnchorKind::Concept || x.kind == AnchorKind::Behavior)
                    && x.file_path@ == file && x.line > line ==> f.line < x.line) {
                if nb != usize::MAX {
                    let k = choose|k: int|
                        0 <= k < s.len() && (s[k].kind == AnchorKind::Concept || s[k].kind == AnchorKind::Behavior)
                            && s[k].file_path@ == file && s[k].line > line && s[k].line == nb;
                    assert(s.contains(s[k]));
                }
                assert(p(f));
            }
        }
    }
}

} // verus!
