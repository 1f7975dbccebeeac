//! Typed hole extraction and context gathering.
//!
//! Holes (`[?]` placeholders) are found in concept field types and in the
//! prose of behavior clauses, together with the context an assistant needs to
//! suggest a filling.
use vstd::prelude::*;
use vstd::seq_lib::lemma_concat_associative;

use crate::ast::{all_contents, contents_of, Behavior, Concept, Constraint, Field, Prose, ReqId, SectionContent, SourceFile, TypeExpr, TypedHole};
use crate::span::Span;
use crate::strmap::{string_set, StrSet};
use crate::text::{
    chars_of, concat_map, contains, contains_char, decimal, find, find_from, first_occurrence,
    is_blank, join, lemma_concat_map_push, occurs_at, push_char, push_decimal, push_joined, push_str,
    seq_contains, str_eq, string_from_range, trim, trim_bounds, trimmed, alphanumeric,
    lowercase_char, char_is_alphanumeric, char_is_lowercase, views,
};

verus! {

// ============================================================================
// Types
// ============================================================================

/// A hole found in the specification with its surrounding context.
#[derive(Debug)]
pub struct HoleWithContext {
    /// The hole itself.
    pub hole: TypedHole,
    /// Parsed name from hole content (e.g., `payment_flow` from `[?payment_flow : Type]`).
    pub name: Option<String>,
    /// Parsed type constraint from hole content (e.g., `Payment -> Receipt`).
    pub type_hint: Option<String>,
    /// The parent context where this hole appears.
    pub parent: HoleParent,
    /// Related concepts that might inform the suggestion.
    pub related_concepts: Vec<String>,
    /// Adjacent constraints that provide additional context.
    pub adjacent_constraints: Vec<String>,
}

/// The parent element containing a hole.
#[derive(Debug)]
pub enum HoleParent {
    /// Hole in a concept field type.
    ConceptField { concept_name: String, field_name: String },
    /// Hole in a behavior signature.
    BehaviorSignature { behavior_name: String, position: SignaturePosition },
    /// Hole in a behavior constraint (requires/ensures).
    BehaviorConstraint { behavior_name: String, constraint_kind: String },
    /// Hole in a returns clause.
    BehaviorReturns { behavior_name: String },
    /// Hole in an unknown location.
    Unknown,
}

/// Position within a behavior signature.
#[derive(Debug, Clone, Copy, PartialEq, Eq, Structural)]
pub enum SignaturePosition {
    /// Input parameter type.
    Input,
    /// Output/return type.
    Output,
}

/// Collection of holes found in a specification.
#[derive(Debug)]
pub struct HoleCollection {
    /// All holes with their contexts.
    pub holes: Vec<HoleWithContext>,
}

// ============================================================================
// Views
// ============================================================================

/// The view of an optional string.
pub open spec fn opt_str(o: Option<String>) -> Option<Seq<char>> {
    match o {
        Some(s) => Some(s@),
        None => None,
    }
}

/// What a parent says, its strings taken by their views.
pub enum ParentView {
    ConceptField { concept_name: Seq<char>, field_name: Seq<char> },
    BehaviorSignature { behavior_name: Seq<char>, position: SignaturePosition },
    BehaviorConstraint { behavior_name: Seq<char>, constraint_kind: Seq<char> },
    BehaviorReturns { behavior_name: Seq<char> },
    Unknown,
}

impl View for HoleParent {
    type V = ParentView;

    open spec fn view(&self) -> ParentView {
        match *self {
            HoleParent::ConceptField { concept_name, field_name } => ParentView::ConceptField {
                concept_name: concept_name@,
                field_name: field_name@,
            },
            HoleParent::BehaviorSignature { behavior_name, position } => ParentView::BehaviorSignature {
                behavior_name: behavior_name@,
                position,
            },
            HoleParent::BehaviorConstraint { behavior_name, constraint_kind } => ParentView::BehaviorConstraint {
                behavior_name: behavior_name@,
                constraint_kind: constraint_kind@,
            },
            HoleParent::BehaviorReturns { behavior_name } => ParentView::BehaviorReturns {
                behavior_name: behavior_name@,
            },
            HoleParent::Unknown => ParentView::Unknown,
        }
    }
}

/// What a hole with its context says, its strings taken by their views.
pub struct HoleView {
    pub content: Option<Seq<char>>,
    pub span: Span,
    pub name: Option<Seq<char>>,
    pub type_hint: Option<Seq<char>>,
    pub parent: ParentView,
    pub related_concepts: Seq<Seq<char>>,
    pub adjacent_constraints: Seq<Seq<char>>,
}

impl View for HoleWithContext {
    type V = HoleView;

    open spec fn view(&self) -> HoleView {
        HoleView {
            content: opt_str(self.hole.content),
            span: self.hole.span,
            name: opt_str(self.name),
            type_hint: opt_str(self.type_hint),
            parent: self.parent@,
            related_concepts: views(self.related_concepts@),
            adjacent_constraints: views(self.adjacent_constraints@),
        }
    }
}

/// The views of a sequence of holes.
pub open spec fn hole_views(s: Seq<HoleWithContext>) -> Seq<HoleView> {
    s.map_values(|h: HoleWithContext| h@)
}

// ============================================================================
// Descriptions and prompts
// ============================================================================

/// What `SignaturePosition::description` returns.
pub open spec fn position_text(p: SignaturePosition) -> Seq<char> {
    match p {
        SignaturePosition::Input => "Input parameter"@,
        SignaturePosition::Output => "Output type"@,
    }
}

/// What `HoleParent::description` returns.
pub open spec fn parent_text(p: ParentView) -> Seq<char> {
    match p {
        ParentView::ConceptField { concept_name, field_name } => "Field '"@ + field_name
            + "' of concept '"@ + concept_name + "'"@,
        ParentView::BehaviorSignature { behavior_name, position } => position_text(position)
            + " of behavior '"@ + behavior_name + "'"@,
        ParentView::BehaviorConstraint { behavior_name, constraint_kind } => constraint_kind
            + " constraint of behavior '"@ + behavior_name + "'"@,
        ParentView::BehaviorReturns { behavior_name } => "Returns clause of behavior '"@
            + behavior_name + "'"@,
        ParentView::Unknown => "Unknown location"@,
    }
}

/// One line of the adjacent-constraints list.
pub open spec fn constraint_line(c: Seq<char>) -> Seq<char> {
    "  - "@ + c + "\n"@
}

/// What `HoleWithContext::prompt_context` returns.
pub open spec fn prompt_text(h: HoleView) -> Seq<char> {
    "Location: "@ + parent_text(h.parent) + "\n"@ + (match h.name {
        Some(n) => "Suggested name: "@ + n + "\n"@,
        None => Seq::empty(),
    }) + (match h.type_hint {
        Some(t) => "Type constraint: "@ + t + "\n"@,
        None => Seq::empty(),
    }) + (if h.related_concepts.len() > 0 {
        "Related concepts: "@ + join(h.related_concepts, ", "@) + "\n"@
    } else {
        Seq::empty()
    }) + (if h.adjacent_constraints.len() > 0 {
        "Adjacent constraints:\n"@ + concat_map(h.adjacent_constraints, |c: Seq<char>| constraint_line(c))
    } else {
        Seq::empty()
    })
}

impl SignaturePosition {
    /// A human-readable description of the position.
    pub fn description(&self) -> (r: &'static str)
        ensures
            r@ == position_text(*self),
    {
        match self {
            SignaturePosition::Input => "Input parameter",
            SignaturePosition::Output => "Output type",
        }
    }
}

impl HoleParent {
    /// Get a human-readable description of the parent.
    pub fn description(&self) -> (r: String)
        ensures
            r@ == parent_text(self@),
    {
        let mut r = String::new();
        match self {
            HoleParent::ConceptField { concept_name, field_name } => {
                push_str(&mut r, "Field '");
                push_str(&mut r, field_name.as_str());
                push_str(&mut r, "' of concept '");
                push_str(&mut r, concept_name.as_str());
                push_str(&mut r, "'");
            },
            HoleParent::BehaviorSignature { behavior_name, position } => {
                push_str(&mut r, position.description());
                push_str(&mut r, " of behavior '");
                push_str(&mut r, behavior_name.as_str());
                push_str(&mut r, "'");
            },
            HoleParent::BehaviorConstraint { behavior_name, constraint_kind } => {
                push_str(&mut r, constraint_kind.as_str());
                push_str(&mut r, " constraint of behavior '");
                push_str(&mut r, behavior_name.as_str());
                push_str(&mut r, "'");
            },
            HoleParent::BehaviorReturns { behavior_name } => {
                push_str(&mut r, "Returns clause of behavior '");
                push_str(&mut r, behavior_name.as_str());
                push_str(&mut r, "'");
            },
            HoleParent::Unknown => {
                push_str(&mut r, "Unknown location");
            },
        }
        assert(r@ =~= parent_text(self@));
        r
    }
}

impl HoleWithContext {
    /// Get the span of this hole.
    pub fn span(&self) -> (s: Span)
        ensures
            s == self.hole.span,
    {
        self.hole.span
    }

    /// Check if this hole has a type hint.
    pub fn has_type_hint(&self) -> (b: bool)
        ensures
            b == self.type_hint is Some,
    {
        self.type_hint.is_some()
    }

    /// Check if this hole has a name.
    pub fn has_name(&self) -> (b: bool)
        ensures
            b == self.name is Some,
    {
        self.name.is_some()
    }

    /// Build a prompt context string for LLM suggestions.
    #[verifier::rlimit(40)]
    pub fn prompt_context(&self) -> (ctx: String)
        ensures
            ctx@ == prompt_text(self@),
    {
        let mut ctx = String::new();
        push_str(&mut ctx, "Location: ");
        let desc = self.parent.description();
        push_str(&mut ctx, desc.as_str());
        push_str(&mut ctx, "\n");
        let ghost a = ctx@;
        if let Some(name) = &self.name {
            push_str(&mut ctx, "Suggested name: ");
            push_str(&mut ctx, name.as_str());
            push_str(&mut ctx, "\n");
        }
        let ghost b = ctx@;
        if let Some(ty) = &self.type_hint {
            push_str(&mut ctx, "Type constraint: ");
            push_str(&mut ctx, ty.as_str());
            push_str(&mut ctx, "\n");
        }
        let ghost c = ctx@;
        if self.related_concepts.len() > 0 {
            push_str(&mut ctx, "Related concepts: ");
            push_joined(&mut ctx, &self.related_concepts, ", ");
            push_str(&mut ctx, "\n");
        }
        let ghost d = ctx@;
        let ghost f = |x: Seq<char>| constraint_line(x);
        let ghost adj = views(self.adjacent_constraints@);
        if self.adjacent_constraints.len() > 0 {
            push_str(&mut ctx, "Adjacent constraints:\n");
            let ghost e = ctx@;
            let mut i: usize = 0;
            while i < self.adjacent_constraints.len()
                invariant
                    i <= self.adjacent_constraints@.len(),
                    adj == views(self.adjacent_constraints@),
                    f == (|x: Seq<char>| constraint_line(x)),
                    ctx@ == e + concat_map(adj.take(i as int), f),
                decreases self.adjacent_constraints.len() - i,
            {
                proof {
                    lemma_concat_map_push(adj, f, i as int);
                }
                push_str(&mut ctx, "  - ");
                push_str(&mut ctx, self.adjacent_constraints[i].as_str());
                push_str(&mut ctx, "\n");
                i += 1;
            }
            assert(adj.take(i as int) =~= adj);
        }
        proof {
            let h = self@;
            let p1 = match h.name {
                Some(n) => "Suggested name: "@ + n + "\n"@,
                None => Seq::empty(),
            };
            let p2 = match h.type_hint {
                Some(t) => "Type constraint: "@ + t + "\n"@,
                None => Seq::empty(),
            };
            let p3 = if h.related_concepts.len() > 0 {
                "Related concepts: "@ + join(h.related_concepts, ", "@) + "\n"@
            } else {
                Seq::empty()
            };
            let p4 = if h.adjacent_constraints.len() > 0 {
                "Adjacent constraints:\n"@ + concat_map(h.adjacent_constraints, f)
            } else {
                Seq::empty()
            };
            assert(a =~= "Location: "@ + parent_text(h.parent) + "\n"@);
            assert(b =~= a + p1);
            assert(c =~= b + p2);
            assert(d =~= c + p3);
            assert(ctx@ =~= d + p4);
            assert(ctx@ =~= "Location: "@ + parent_text(h.parent) + "\n"@ + p1 + p2 + p3 + p4);
        }
        ctx
    }
}

// ============================================================================
// Looking up holes
// ============================================================================

/// `(line, column)` lies within `s` (both ends included).
pub open spec fn position_in(s: Span, line: u32, column: u32) -> bool {
    line >= s.start_line && line <= s.end_line && (line != s.start_line || column >= s.start_col) && (
    line != s.end_line || column <= s.end_col)
}

/// `offset` lies within `s` (both ends included).
pub open spec fn offset_in(s: Span, offset: u32) -> bool {
    offset >= s.start && offset <= s.end
}

/// The hole lies in the concept named `name`.
pub open spec fn in_concept_spec(h: HoleWithContext, name: Seq<char>) -> bool {
    match h.parent {
        HoleParent::ConceptField { concept_name, .. } => concept_name@ == name,
        _ => false,
    }
}

/// The hole lies in the behavior named `name`.
pub open spec fn in_behavior_spec(h: HoleWithContext, name: Seq<char>) -> bool {
    match h.parent {
        HoleParent::BehaviorSignature { behavior_name, .. } => behavior_name@ == name,
        HoleParent::BehaviorConstraint { behavior_name, .. } => behavior_name@ == name,
        HoleParent::BehaviorReturns { behavior_name } => behavior_name@ == name,
        _ => false,
    }
}

/// The holes of `hs` that lie in the concept named `name`, in order.
pub open spec fn holes_in_concept(hs: Seq<HoleWithContext>, name: Seq<char>) -> Seq<HoleWithContext> {
    hs.filter(|h: HoleWithContext| in_concept_spec(h, name))
}

/// The holes of `hs` that lie in the behavior named `name`, in order.
pub open spec fn holes_in_behavior(hs: Seq<HoleWithContext>, name: Seq<char>) -> Seq<HoleWithContext> {
    hs.filter(|h: HoleWithContext| in_behavior_spec(h, name))
}

impl HoleCollection {
    /// Check if there are any holes.
    pub fn is_empty(&self) -> (b: bool)
        ensures
            b == (self.holes@.len() == 0),
    {
        self.holes.len() == 0
    }

    /// Get the number of holes.
    pub fn len(&self) -> (n: usize)
        ensures
            n == self.holes@.len(),
    {
        self.holes.len()
    }

    /// Find the first hole whose span contains a position (line, column).
    pub fn find_at(&self, line: u32, column: u32) -> (r: Option<&HoleWithContext>)
        ensures
            match r {
                Some(h) => exists|i: int|
                    0 <= i < self.holes@.len() && self.holes@[i] == *h && position_in(h.hole.span, line, column)
                        && forall|j: int| 0 <= j < i ==> !position_in(#[trigger] self.holes@[j].hole.span, line, column),
                None => forall|j: int| 0 <= j < self.holes@.len() ==> !position_in(#[trigger] self.holes@[j].hole.span, line, column),
            },
    {
        let mut i: usize = 0;
        while i < self.holes.len()
            invariant
                i <= self.holes@.len(),
                forall|j: int| 0 <= j < i ==> !position_in(#[trigger] self.holes@[j].hole.span, line, column),
            decreases self.holes.len() - i,
        {
            let span = self.holes[i].span();
            if line >= span.start_line && line <= span.end_line && (line != span.start_line || column >= span.start_col)
                && (line != span.end_line || column <= span.end_col) {
                return Some(&self.holes[i]);
            }
            i += 1;
        }
        None
    }

    /// Find the first hole whose span contains a byte offset.
    pub fn find_at_offset(&self, offset: u32) -> (r: Option<&HoleWithContext>)
        ensures
            match r {
                Some(h) => exists|i: int|
                    0 <= i < self.holes@.len() && self.holes@[i] == *h && offset_in(h.hole.span, offset)
                        && forall|j: int| 0 <= j < i ==> !offset_in(#[trigger] self.holes@[j].hole.span, offset),
                None => forall|j: int| 0 <= j < self.holes@.len() ==> !offset_in(#[trigger] self.holes@[j].hole.span, offset),
            },
    {
        let mut i: usize = 0;
        while i < self.holes.len()
            invariant
                i <= self.holes@.len(),
                forall|j: int| 0 <= j < i ==> !offset_in(#[trigger] self.holes@[j].hole.span, offset),
            decreases self.holes.len() - i,
        {
            let span = self.holes[i].span();
            if offset >= span.start && offset <= span.end {
                return Some(&self.holes[i]);
            }
            i += 1;
        }
        None
    }

    /// Get holes in a specific concept, in order.
    pub fn in_concept(&self, concept_name: &str) -> (r: Vec<&HoleWithContext>)
        ensures
            r@.map_values(|h: &HoleWithContext| *h) == holes_in_concept(self.holes@, concept_name@),
    {
        let ghost p = |h: HoleWithContext| in_concept_spec(h, concept_name@);
        let mut r: Vec<&HoleWithContext> = Vec::new();
        let mut i: usize = 0;
        while i < self.holes.len()
            invariant
                i <= self.holes@.len(),
                p == (|h: HoleWithContext| in_concept_spec(h, concept_name@)),
                r@.map_values(|h: &HoleWithContext| *h) == self.holes@.take(i as int).filter(p),
            decreases self.holes.len() - i,
        {
            proof {
                crate::text::lemma_filter_take_push(self.holes@, p, i as int);
            }
            let h = &self.holes[i];
            let keep = match &h.parent {
                HoleParent::ConceptField { concept_name: cn, .. } => str_eq(cn.as_str(), concept_name),
                _ => false,
            };
            if keep {
                let ghost r0 = r@;
                r.push(h);
                assert(r@.map_values(|h: &HoleWithContext| *h) =~= r0.map_values(|h: &HoleWithContext| *h).push(*h));
            }
            i += 1;
        }
        assert(self.holes@.take(i as int) =~= self.holes@);
        r
    }

    /// Get holes in a specific behavior, in order.
    pub fn in_behavior(&self, behavior_name: &str) -> (r: Vec<&HoleWithContext>)
        ensures
            r@.map_values(|h: &HoleWithContext| *h) == holes_in_behavior(self.holes@, behavior_name@),
    {
        let ghost p = |h: HoleWithContext| in_behavior_spec(h, behavior_name@);
        let mut r: Vec<&HoleWithContext> = Vec::new();
        let mut i: usize = 0;
        while i < self.holes.len()
            invariant
                i <= self.holes@.len(),
                p == (|h: HoleWithContext| in_behavior_spec(h, behavior_name@)),
                r@.map_values(|h: &HoleWithContext| *h) == self.holes@.take(i as int).filter(p),
            decreases self.holes.len() - i,
        {
            proof {
                crate::text::lemma_filter_take_push(self.holes@, p, i as int);
            }
            let h = &self.holes[i];
            let keep = match &h.parent {
                HoleParent::BehaviorSignature { behavior_name: bn, .. } => str_eq(bn.as_str(), behavior_name),
                HoleParent::BehaviorConstraint { behavior_name: bn, .. } => str_eq(bn.as_str(), behavior_name),
                HoleParent::BehaviorReturns { behavior_name: bn } => str_eq(bn.as_str(), behavior_name),
                _ => false,
            };
            if keep {
                let ghost r0 = r@;
                r.push(h);
                assert(r@.map_values(|h: &HoleWithContext| *h) =~= r0.map_values(|h: &HoleWithContext| *h).push(*h));
            }
            i += 1;
        }
        assert(self.holes@.take(i as int) =~= self.holes@);
        r
    }
}

// ============================================================================
// Reading hole content
// ============================================================================

/// Every character is alphanumeric or `_`.
pub open spec fn all_name_chars(s: Seq<char>) -> bool {
    forall|i: int| 0 <= i < s.len() ==> (alphanumeric(#[trigger] s[i]) || s[i] == '_')
}

/// The trimmed text, or none when it is empty.
pub open spec fn nonempty(s: Seq<char>) -> Option<Seq<char>> {
    if s.len() == 0 {
        None
    } else {
        Some(s)
    }
}

/// The trimmed text before the first colon of `t`, unless it is empty.
pub open spec fn colon_label(t: Seq<char>) -> Option<Seq<char>> {
    nonempty(trim(t.subrange(0, crate::text::first_index(t, ':'))))
}

/// Trimmed hole content `t` lists related concepts: `involving: ...`.
pub open spec fn lists_concepts(t: Seq<char>) -> bool {
    t.contains(':') && colon_label(t) == Some("involving"@)
}

/// The name and type hint read from trimmed hole content `t`: content that
/// lists related concepts (`involving: ...`) has neither; otherwise
/// `name : type` splits at the first colon (each part trimmed, empty parts
/// dropped); content holding a backtick or `->` is a type; content made of
/// alphanumerics and `_` that starts lower-case is a name; other non-empty
/// content is a type.
pub open spec fn split_hole_text(t: Seq<char>) -> (Option<Seq<char>>, Option<Seq<char>>) {
    if lists_concepts(t) {
        (None, None)
    } else if t.contains(':') {
        let p = crate::text::first_index(t, ':');
        (nonempty(trim(t.subrange(0, p))), nonempty(trim(t.subrange(p + 1, t.len() as int))))
    } else if t.contains('`') || seq_contains(t, "->"@) {
        (None, Some(t))
    } else if all_name_chars(t) && t.len() > 0 && lowercase_char(t[0]) {
        (Some(t), None)
    } else if t.len() == 0 {
        (None, None)
    } else {
        (None, Some(t))
    }
}

/// What `parse_hole_content` returns.
pub open spec fn hole_content_parts(content: Option<Seq<char>>) -> (Option<Seq<char>>, Option<Seq<char>>) {
    match content {
        None => (None, None),
        Some(c) => split_hole_text(trim(c)),
    }
}

fn nonempty_trimmed(v: &Vec<char>, from: usize, to: usize) -> (r: Option<String>)
    requires
        from <= to <= v@.len(),
    ensures
        opt_str(r) == nonempty(trim(v@.subrange(from as int, to as int))),
{
    let part = string_from_range(v, from, to);
    let t = trimmed(part.as_str());
    if t.as_str().is_empty() {
        None
    } else {
        Some(t)
    }
}

/// Whether a label is `involving`.
fn is_involving(label: &Option<String>) -> (b: bool)
    ensures
        b == (opt_str(*label) == Some("involving"@)),
{
    match label {
        Some(l) => str_eq(l.as_str(), "involving"),
        None => false,
    }
}

/// Parse hole content into name and type hint.
///
/// Handles formats like:
/// - `[?]` -> (None, None)
/// - `[? Type]` -> (None, Some("Type"))
/// - `[?name]` -> (Some("name"), None)
/// - `[?name : Type]` -> (Some("name"), Some("Type"))
/// - `[? involving: `A`, `B`]` -> (None, None): it lists related concepts
///   (see `listed_concepts`), it names nothing.
pub fn parse_hole_content(content: &Option<String>) -> (r: (Option<String>, Option<String>))
    ensures
        (opt_str(r.0), opt_str(r.1)) == hole_content_parts(opt_str(*content)),
{
    let c = match content {
        None => return (None, None),
        Some(c) => c,
    };
    let t = trimmed(c.as_str());
    assert(hole_content_parts(opt_str(*content)) == split_hole_text(t@));
    let v = chars_of(t.as_str());
    // name : type
    let mut i: usize = 0;
    while i < v.len()
        invariant
            v@ == t@,
            hole_content_parts(opt_str(*content)) == split_hole_text(t@),
            i <= v@.len(),
            forall|j: int| 0 <= j < i ==> v@[j] != ':',
        decreases v.len() - i,
    {
        if v[i] == ':' {
            proof {
                assert(t@.contains(':'));
                let p = crate::text::first_index(t@, ':');
                assert(p == i as int) by {
                    if p < i {
                    } else if p > i {
                    }
                }
            }
            let name = nonempty_trimmed(&v, 0, i);
            if is_involving(&name) {
                assert(lists_concepts(t@));
                return (None, None);
            }
            let ty = nonempty_trimmed(&v, i + 1, v.len());
            assert(split_hole_text(t@) == (opt_str(name), opt_str(ty)));
            return (name, ty);
        }
        i += 1;
    }
    assert(!t@.contains(':'));
    if contains_char(t.as_str(), '`') || contains(t.as_str(), "->") {
        return (None, Some(t));
    }
    // a name: alphanumerics and `_`, starting lower-case
    let mut all_name = true;
    let mut k: usize = 0;
    while k < v.len()
        invariant
            v@ == t@,
            k <= v@.len(),
            all_name == forall|j: int| 0 <= j < k ==> (alphanumeric(#[trigger] v@[j]) || v@[j] == '_'),
        decreases v.len() - k,
    {
        let c = v[k];
        let ok = char_is_alphanumeric(c) || c == '_';
        if !ok {
            all_name = false;
        }
        k += 1;
    }
    if all_name && v.len() > 0 && char_is_lowercase(v[0]) {
        return (Some(t), None);
    }
    if v.len() == 0 {
        (None, None)
    } else {
        (None, Some(t))
    }
}

/// Reading `s` left to right: whether a backtick is open, the text since it
/// opened, and the names closed so far.
pub open spec fn scan_quoted(s: Seq<char>) -> (bool, Seq<char>, Seq<Seq<char>>)
    decreases s.len(),
{
    if s.len() == 0 {
        (false, Seq::empty(), Seq::empty())
    } else {
        let prev = scan_quoted(s.drop_last());
        let c = s.last();
        if c == '`' {
            if prev.0 {
                (false, Seq::empty(), prev.2.push(prev.1))
            } else {
                (true, Seq::empty(), prev.2)
            }
        } else if prev.0 {
            (true, prev.1.push(c), prev.2)
        } else {
            prev
        }
    }
}

/// The names written between backticks in `s`, in order.
pub open spec fn quoted_names(s: Seq<char>) -> Seq<Seq<char>> {
    scan_quoted(s).2
}

/// The concepts that hole content lists (`involving: `A`, `B``), if it lists any.
pub open spec fn hole_concepts(content: Option<Seq<char>>) -> Option<Seq<Seq<char>>> {
    match content {
        Some(c) => {
            let t = trim(c);
            if lists_concepts(t) {
                Some(quoted_names(t.subrange(crate::text::first_index(t, ':') + 1, t.len() as int)))
            } else {
                None
            }
        },
        None => None,
    }
}

/// The related concepts of a hole with content `content` whose surroundings
/// suggest `around`: those the hole lists, where it lists some, else `around`.
pub open spec fn hole_related(content: Option<Seq<char>>, around: Seq<Seq<char>>) -> Seq<Seq<char>> {
    match hole_concepts(content) {
        Some(l) => l,
        None => around,
    }
}

/// The names between backticks in `v` from position `from` on.
fn quoted_names_from(v: &Vec<char>, from: usize) -> (r: Vec<String>)
    requires
        from <= v@.len(),
    ensures
        views(r@) == quoted_names(v@.subrange(from as int, v@.len() as int)),
{
    let mut inside = false;
    let mut cur = String::new();
    let mut acc: Vec<String> = Vec::new();
    let mut k: usize = from;
    while k < v.len()
        invariant
            from <= k <= v@.len(),
            (inside, cur@, views(acc@)) == scan_quoted(v@.subrange(from as int, k as int)),
        decreases v.len() - k,
    {
        proof {
            assert(v@.subrange(from as int, k + 1).drop_last() =~= v@.subrange(from as int, k as int));
            assert(v@.subrange(from as int, k + 1).last() == v@[k as int]);
        }
        let c = v[k];
        if c == '`' {
            if inside {
                let ghost a0 = acc@;
                acc.push(cur);
                assert(views(acc@) =~= views(a0).push(acc@[a0.len() as int]@));
                cur = String::new();
                inside = false;
            } else {
                cur = String::new();
                inside = true;
            }
            assert(cur@ =~= Seq::<char>::empty());
        } else if inside {
            crate::text::push_char(&mut cur, c);
        }
        k += 1;
    }
    acc
}

/// The concepts that hole content lists: for `involving: `A`, `B``, the names
/// between backticks after the colon; `None` for any other content.
pub fn listed_concepts(content: &Option<String>) -> (r: Option<Vec<String>>)
    ensures
        match r {
            Some(l) => hole_concepts(opt_str(*content)) == Some(views(l@)),
            None => hole_concepts(opt_str(*content)) is None,
        },
{
    let c = match content {
        None => return None,
        Some(c) => c,
    };
    let t = trimmed(c.as_str());
    let v = chars_of(t.as_str());
    let mut i: usize = 0;
    while i < v.len()
        invariant
            v@ == t@,
            t@ == trim(c@),
            opt_str(*content) == Some(c@),
            i <= v@.len(),
            forall|j: int| 0 <= j < i ==> v@[j] != ':',
        decreases v.len() - i,
    {
        if v[i] == ':' {
            proof {
                assert(t@.contains(':'));
                let p = crate::text::first_index(t@, ':');
                assert(p == i as int) by {
                    if p < i {
                    } else if p > i {
                    }
                }
            }
            let label = nonempty_trimmed(&v, 0, i);
            assert(colon_label(t@) == opt_str(label));
            assert(hole_concepts(opt_str(*content)) == if lists_concepts(t@) {
                Some(quoted_names(t@.subrange(i + 1, t@.len() as int)))
            } else {
                None::<Seq<Seq<char>>>
            });
            if is_involving(&label) {
                let names = quoted_names_from(&v, i + 1);
                return Some(names);
            }
            return None;
        }
        i += 1;
    }
    assert(!t@.contains(':'));
    None
}

/// The hole that `extract_hole_from_prose` reads from `text`: the content
/// between the first `[?` and the first `]` after it, trimmed, or none when
/// empty.
pub open spec fn prose_hole(text: Seq<char>) -> Option<Option<Seq<char>>> {
    match crate::text::find_spec(text, "[?"@) {
        None => None,
        Some(start) => {
            if exists|e: int| start <= e && occurs_at(text, seq![']'], e) {
                let close = choose|e: int|
                    start <= e && occurs_at(text, seq![']'], e) && forall|k: int|
                        start <= k < e ==> !occurs_at(text, seq![']'], k);
                let inner = text.subrange(start + 2, close);
                Some(if inner.len() == 0 { None } else { Some(trim(inner)) })
            } else {
                None
            }
        },
    }
}

/// Extract a hole from prose text if it contains a `[?...]` pattern; the hole
/// carries the prose span.
pub fn extract_hole_from_prose(text: &str, span: Span) -> (r: Option<TypedHole>)
    ensures
        match r {
            Some(h) => prose_hole(text@) == Some(opt_str(h.content)) && h.span == span,
            None => prose_hole(text@) is None,
        },
{
    let v = chars_of(text);
    let open = chars_of("[?");
    let close_pat = chars_of("]");
    proof {
        reveal_strlit("[?");
    }
    let start = match find(&v, &open) {
        Some(s) => s,
        None => return None,
    };
    proof {
        reveal_strlit("[?");
        reveal_strlit("]");
        assert(close_pat@ =~= seq![']']);
        assert(open@ =~= seq!['[', '?']);
    }
    let close = match find_from(&v, &close_pat, start) {
        Some(e) => e,
        None => return None,
    };
    proof {
        assert(v@[start as int] == '[');
        assert(v@.subrange(start as int, start + 2)[0] == '[');
        assert(v@.subrange(start as int, start + 2)[1] == '?');
        assert(v@.subrange(close as int, close + 1)[0] == ']');
        if close < start + 2 {
            if close == start {
                assert(v@[close as int] == ']');
                assert(v@[start as int] == '[');
            } else {
                assert(v@[close as int] == ']');
                assert(v@[start + 1] == '?');
            }
        }
        let c2 = choose|e: int|
            start <= e && occurs_at(v@, seq![']'], e) && forall|k: int|
                start <= k < e ==> !occurs_at(v@, seq![']'], k);
        assert(c2 == close as int) by {
            if c2 < close {
            } else if c2 > close {
            }
        }
    }
    let content = if close == start + 2 {
        None
    } else {
        let inner = string_from_range(&v, start + 2, close);
        Some(trimmed(inner.as_str()))
    };
    Some(TypedHole { content, span })
}

// ============================================================================
// Extracting holes from a file
// ============================================================================

/// The names in `all` of the concepts that other fields of `concept` refer to
/// by a plain type reference, in field order.
pub open spec fn related_of(concept: Concept, field: Field, all: Seq<Seq<char>>) -> Seq<Seq<char>> {
    concat_map(
        concept.fields@,
        |f: Field|
            if f.name.value@ != field.name.value@ {
                match f.ty {
                    Some(TypeExpr::Reference(r)) => if all.contains(r.name@) {
                        seq![r.name@]
                    } else {
                        Seq::empty()
                    },
                    _ => Seq::empty(),
                }
            } else {
                Seq::empty()
            },
    )
}

/// The hole of a field of `concept`, if its type is a hole.
pub open spec fn field_hole(concept: Concept, field: Field, all: Seq<Seq<char>>) -> Seq<HoleView> {
    match field.ty {
        Some(TypeExpr::Hole(h)) => {
            let parts = hole_content_parts(opt_str(h.content));
            seq![
                HoleView {
                    content: opt_str(h.content),
                    span: h.span,
                    name: parts.0,
                    type_hint: parts.1,
                    parent: ParentView::ConceptField {
                        concept_name: concept.name.value@,
                        field_name: field.name.value@,
                    },
                    related_concepts: hole_related(opt_str(h.content), related_of(concept, field, all)),
                    adjacent_constraints: field.constraints@.map_values(|c: Constraint| crate::debug_text::constraint_debug_spec(c)),
                },
            ]
        },
        _ => Seq::empty(),
    }
}

/// The holes of the fields of `concept`, in field order.
pub open spec fn concept_holes(concept: Concept, all: Seq<Seq<char>>) -> Seq<HoleView> {
    concat_map(concept.fields@, |f: Field| field_hole(concept, f, all))
}

fn seq_strings_contains(all: &Vec<String>, x: &str) -> (b: bool)
    ensures
        b == views(all@).contains(x@),
{
    let mut i: usize = 0;
    while i < all.len()
        invariant
            i <= all@.len(),
            forall|j: int| 0 <= j < i ==> all@[j]@ != x@,
        decreases all.len() - i,
    {
        if str_eq(all[i].as_str(), x) {
            assert(views(all@)[i as int] == x@);
            return true;
        }
        i += 1;
    }
    proof {
        if views(all@).contains(x@) {
            let j = choose|j: int| 0 <= j < views(all@).len() && views(all@)[j] == x@;
            assert(all@[j]@ == x@);
        }
    }
    false
}

fn push_views(v: &mut Vec<String>, s: String)
    ensures
        views(final(v)@) == views(old(v)@).push(s@),
{
    v.push(s);
    assert(views(v@) =~= views(old(v)@).push(s@));
}

/// Extract holes from a concept definition.
fn extract_concept_holes(concept: &Concept, all_concepts: &Vec<String>, collection: &mut HoleCollection)
    ensures
        hole_views(final(collection).holes@) == hole_views(old(collection).holes@) + concept_holes(
            *concept,
            views(all_concepts@),
        ),
{
    let ghost all = views(all_concepts@);
    let ghost g = |f: Field| field_hole(*concept, f, all);
    let ghost start = hole_views(collection.holes@);
    let mut i: usize = 0;
    while i < concept.fields.len()
        invariant
            i <= concept.fields@.len(),
            all == views(all_concepts@),
            g == (|f: Field| field_hole(*concept, f, all)),
            hole_views(collection.holes@) == start + concat_map(concept.fields@.take(i as int), g),
        decreases concept.fields.len() - i,
    {
        proof {
            lemma_concat_map_push(concept.fields@, g, i as int);
        }
        let field = &concept.fields[i];
        if let Some(TypeExpr::Hole(hole)) = &field.ty {
            let (name, type_hint) = parse_hole_content(&hole.content);
            // adjacent constraints
            let mut constraints: Vec<String> = Vec::new();
            let mut k: usize = 0;
            while k < field.constraints.len()
                invariant
                    k <= field.constraints@.len(),
                    views(constraints@) == field.constraints@.take(k as int).map_values(|c: Constraint| crate::debug_text::constraint_debug_spec(c)),
                decreases field.constraints.len() - k,
            {
                let d = crate::debug_text::constraint_text(&field.constraints[k]);
                push_views(&mut constraints, d);
                assert(field.constraints@.take(k + 1).map_values(|c: Constraint| crate::debug_text::constraint_debug_spec(c)) =~= field.constraints@.take(k as int).map_values(|c: Constraint| crate::debug_text::constraint_debug_spec(c)).push(crate::debug_text::constraint_debug_spec(field.constraints@[k as int])));
                k += 1;
            }
            assert(field.constraints@.take(k as int) =~= field.constraints@);
            // related concepts
            let ghost rf = |f: Field|
                if f.name.value@ != field.name.value@ {
                    match f.ty {
                        Some(TypeExpr::Reference(r)) => if all.contains(r.name@) {
                            seq![r.name@]
                        } else {
                            Seq::empty()
                        },
                        _ => Seq::empty(),
                    }
                } else {
                    Seq::empty()
                };
            let mut related: Vec<String> = Vec::new();
            let mut m: usize = 0;
            while m < concept.fields.len()
                invariant
                    m <= concept.fields@.len(),
                    all == views(all_concepts@),
                    *field == concept.fields@[i as int],
                    rf == (|f: Field|
                        if f.name.value@ != field.name.value@ {
                            match f.ty {
                                Some(TypeExpr::Reference(r)) => if all.contains(r.name@) {
                                    seq![r.name@]
                                } else {
                                    Seq::empty()
                                },
                                _ => Seq::empty(),
                            }
                        } else {
                            Seq::empty()
                        }),
                    views(related@) == concat_map(concept.fields@.take(m as int), rf),
                decreases concept.fields.len() - m,
            {
                proof {
                    lemma_concat_map_push(concept.fields@, rf, m as int);
                }
                let other = &concept.fields[m];
                if !str_eq(other.name.value.as_str(), field.name.value.as_str()) {
                    if let Some(TypeExpr::Reference(r)) = &other.ty {
                        if seq_strings_contains(all_concepts, r.name.as_str()) {
                            push_views(&mut related, r.name.clone());
                        }
                    }
                }
                m += 1;
            }
            assert(concept.fields@.take(m as int) =~= concept.fields@);
            assert(rf =~= (|f: Field|
                if f.name.value@ != field.name.value@ {
                    match f.ty {
                        Some(TypeExpr::Reference(r)) => if all.contains(r.name@) {
                            seq![r.name@]
                        } else {
                            Seq::empty()
                        },
                        _ => Seq::empty(),
                    }
                } else {
                    Seq::empty()
                }));
            let item = HoleWithContext {
                hole: hole.clone(),
                name,
                type_hint,
                parent: HoleParent::ConceptField {
                    concept_name: concept.name.value.clone(),
                    field_name: field.name.value.clone(),
                },
                related_concepts: match listed_concepts(&hole.content) {
                    Some(l) => l,
                    None => related,
                },
                adjacent_constraints: constraints,
            };
            let ghost h0 = collection.holes@;
            collection.holes.push(item);
            assert(hole_views(collection.holes@) =~= hole_views(h0).push(item@));
            assert(field_hole(*concept, *field, all) =~= seq![item@]);
        }
        i += 1;
    }
    assert(concept.fields@.take(i as int) =~= concept.fields@);
}


impl Clone for HoleParent {
    fn clone(&self) -> (r: Self)
        ensures
            r == *self,
    {
        match self {
            HoleParent::ConceptField { concept_name, field_name } => HoleParent::ConceptField {
                concept_name: concept_name.clone(),
                field_name: field_name.clone(),
            },
            HoleParent::BehaviorSignature { behavior_name, position } => HoleParent::BehaviorSignature {
                behavior_name: behavior_name.clone(),
                position: *position,
            },
            HoleParent::BehaviorConstraint { behavior_name, constraint_kind } => HoleParent::BehaviorConstraint {
                behavior_name: behavior_name.clone(),
                constraint_kind: constraint_kind.clone(),
            },
            HoleParent::BehaviorReturns { behavior_name } => HoleParent::BehaviorReturns {
                behavior_name: behavior_name.clone(),
            },
            HoleParent::Unknown => HoleParent::Unknown,
        }
    }
}

/// A copy of a list of strings.
pub fn clone_strings(v: &Vec<String>) -> (r: Vec<String>)
    ensures
        r@ == v@,
{
    let mut r: Vec<String> = Vec::new();
    let mut i: usize = 0;
    while i < v.len()
        invariant
            i <= v@.len(),
            r@ == v@.take(i as int),
        decreases v.len() - i,
    {
        r.push(v[i].clone());
        i += 1;
        assert(r@ =~= v@.take(i as int));
    }
    assert(v@.take(i as int) =~= v@);
    r
}

/// The prose of a behavior's given, returns, requires and ensures clauses,
/// each followed by a space.
pub open spec fn behavior_text(b: Behavior) -> Seq<char> {
    concat_map(b.given@, |p: Prose| p.text@.push(' ')) + (match b.returns {
        Some(r) => r.text@.push(' '),
        None => Seq::empty(),
    }) + concat_map(b.requires@, |p: Prose| p.text@.push(' ')) + concat_map(
        b.ensures@,
        |p: Prose| p.text@.push(' '),
    )
}

/// The concepts of `all` that a behavior's clauses mention (by name, with or
/// without backticks), in the order of `all`, then the IDs it implements that
/// are concept names.
pub open spec fn behavior_concepts(b: Behavior, all: Seq<Seq<char>>) -> Seq<Seq<char>> {
    concat_map(
        all,
        |c: Seq<char>|
            if seq_contains(behavior_text(b), "`"@ + c + "`"@) || seq_contains(behavior_text(b), c) {
                seq![c]
            } else {
                Seq::empty()
            },
    ) + concat_map(
        b.implements@,
        |id: ReqId|
            if all.contains(id.value@) {
                seq![id.value@]
            } else {
                Seq::empty()
            },
    )
}

fn push_prose_texts(all_text: &mut String, ps: &Vec<Prose>)
    ensures
        final(all_text)@ == old(all_text)@ + concat_map(ps@, |p: Prose| p.text@.push(' ')),
{
    let ghost f = |p: Prose| p.text@.push(' ');
    let ghost start = all_text@;
    let mut i: usize = 0;
    while i < ps.len()
        invariant
            i <= ps@.len(),
            f == (|p: Prose| p.text@.push(' ')),
            all_text@ == start + concat_map(ps@.take(i as int), f),
        decreases ps.len() - i,
    {
        proof {
            lemma_concat_map_push(ps@, f, i as int);
        }
        push_str(all_text, ps[i].text.as_str());
        push_char(all_text, ' ');
        i += 1;
    }
    assert(ps@.take(i as int) =~= ps@);
}

/// Find concepts referenced in a behavior by scanning prose text.
fn find_behavior_concepts(behavior: &Behavior, all_concepts: &Vec<String>) -> (r: Vec<String>)
    ensures
        views(r@) == behavior_concepts(*behavior, views(all_concepts@)),
{
    let mut all_text = String::new();
    push_prose_texts(&mut all_text, &behavior.given);
    if let Some(ret_clause) = &behavior.returns {
        push_str(&mut all_text, ret_clause.text.as_str());
        push_char(&mut all_text, ' ');
    }
    push_prose_texts(&mut all_text, &behavior.requires);
    push_prose_texts(&mut all_text, &behavior.ensures);
    assert(all_text@ =~= behavior_text(*behavior));
    let ghost all = views(all_concepts@);
    let ghost f = |c: Seq<char>|
        if seq_contains(behavior_text(*behavior), "`"@ + c + "`"@) || seq_contains(behavior_text(*behavior), c) {
            seq![c]
        } else {
            Seq::empty()
        };
    let mut concepts: Vec<String> = Vec::new();
    let mut i: usize = 0;
    while i < all_concepts.len()
        invariant
            i <= all_concepts@.len(),
            all == views(all_concepts@),
            all_text@ == behavior_text(*behavior),
            f == (|c: Seq<char>|
                if seq_contains(behavior_text(*behavior), "`"@ + c + "`"@) || seq_contains(behavior_text(*behavior), c) {
                    seq![c]
                } else {
                    Seq::empty()
                }),
            views(concepts@) == concat_map(all.take(i as int), f),
        decreases all_concepts.len() - i,
    {
        proof {
            lemma_concat_map_push(all, f, i as int);
        }
        let concept = &all_concepts[i];
        let mut quoted = String::new();
        push_str(&mut quoted, "`");
        push_str(&mut quoted, concept.as_str());
        push_str(&mut quoted, "`");
        if contains(all_text.as_str(), quoted.as_str()) || contains(all_text.as_str(), concept.as_str()) {
            push_views(&mut concepts, concept.clone());
        }
        i += 1;
    }
    assert(all.take(i as int) =~= all);
    let ghost g = |id: ReqId|
        if all.contains(id.value@) {
            seq![id.value@]
        } else {
            Seq::empty()
        };
    let ghost mid = views(concepts@);
    let mut j: usize = 0;
    while j < behavior.implements.len()
        invariant
            j <= behavior.implements@.len(),
            all == views(all_concepts@),
            g == (|id: ReqId|
                if all.contains(id.value@) {
                    seq![id.value@]
                } else {
                    Seq::empty()
                }),
            views(concepts@) == mid + concat_map(behavior.implements@.take(j as int), g),
        decreases behavior.implements.len() - j,
    {
        proof {
            lemma_concat_map_push(behavior.implements@, g, j as int);
        }
        let imp = &behavior.implements[j];
        if seq_strings_contains(all_concepts, imp.value.as_str()) {
            push_views(&mut concepts, imp.value.clone());
        }
        j += 1;
    }
    assert(behavior.implements@.take(j as int) =~= behavior.implements@);
    concepts
}

/// The hole of one behavior clause, if its prose holds one.
pub open spec fn clause_hole(p: Prose, parent: ParentView, related: Seq<Seq<char>>, adjacent: Seq<Seq<char>>) -> Seq<HoleView> {
    match prose_hole(p.text@) {
        Some(content) => {
            let parts = hole_content_parts(content);
            seq![
                HoleView {
                    content,
                    span: p.span,
                    name: parts.0,
                    type_hint: parts.1,
                    parent,
                    related_concepts: hole_related(content, related),
                    adjacent_constraints: adjacent,
                },
            ]
        },
        None => Seq::empty(),
    }
}

/// The holes of the first `n` clauses of `ps`; the hole of clause `i`
/// (1-based) notes `label` followed by `i`.
pub open spec fn numbered_holes(ps: Seq<Prose>, n: nat, parent: ParentView, related: Seq<Seq<char>>, label: Seq<char>) -> Seq<HoleView>
    decreases n,
{
    if n == 0 {
        Seq::empty()
    } else {
        numbered_holes(ps, (n - 1) as nat, parent, related, label) + clause_hole(
            ps[n - 1],
            parent,
            related,
            seq![label + decimal(n)],
        )
    }
}

/// The hole of a behavior's returns clause, if it has one that holds a hole.
pub open spec fn returns_hole(b: Behavior, related: Seq<Seq<char>>) -> Seq<HoleView> {
    match b.returns {
        Some(r) => clause_hole(r, ParentView::BehaviorReturns { behavior_name: b.name.value@ }, related, Seq::empty()),
        None => Seq::empty(),
    }
}

/// The holes of a behavior: in its given clauses, its returns clause, its
/// requires clauses and its ensures clauses, in that order.
pub open spec fn behavior_holes(b: Behavior, all: Seq<Seq<char>>) -> Seq<HoleView> {
    behavior_holes_with(b, behavior_concepts(b, all))
}

/// The given-clause holes of a behavior, noting `related` concepts.
pub open spec fn given_holes(b: Behavior, related: Seq<Seq<char>>) -> Seq<HoleView> {
    numbered_holes(
        b.given@,
        b.given@.len(),
        ParentView::BehaviorSignature { behavior_name: b.name.value@, position: SignaturePosition::Input },
        related,
        "given clause #"@,
    )
}

/// The holes of one kind of constraint clauses of a behavior.
pub open spec fn constraint_holes(b: Behavior, clauses: Seq<Prose>, kind: Seq<char>, label: Seq<char>, related: Seq<Seq<char>>) -> Seq<HoleView> {
    numbered_holes(
        clauses,
        clauses.len(),
        ParentView::BehaviorConstraint { behavior_name: b.name.value@, constraint_kind: kind },
        related,
        label,
    )
}

/// The holes of a behavior whose related concepts are `related`.
pub open spec fn behavior_holes_with(b: Behavior, related: Seq<Seq<char>>) -> Seq<HoleView> {
    given_holes(b, related) + returns_hole(b, related) + constraint_holes(b, b.requires@, "requires"@, "requires clause #"@, related)
        + constraint_holes(b, b.ensures@, "ensures"@, "ensures clause #"@, related)
}

#[verifier::rlimit(40)]
fn push_clause_hole(
    p: &Prose,
    parent: &HoleParent,
    related: &Vec<String>,
    adjacent: Vec<String>,
    holes: &mut Vec<HoleWithContext>,
)
    ensures
        hole_views(final(holes)@) == hole_views(old(holes)@) + clause_hole(*p, parent@, views(related@), views(adjacent@)),
{
    match extract_hole_from_prose(p.text.as_str(), p.span) {
        Some(hole) => {
            let (name, type_hint) = parse_hole_content(&hole.content);
            let related_concepts = match listed_concepts(&hole.content) {
                Some(l) => l,
                None => clone_strings(related),
            };
            assert(views(related_concepts@) == hole_related(opt_str(hole.content), views(related@)));
            let item = HoleWithContext {
                hole,
                name,
                type_hint,
                parent: parent.clone(),
                related_concepts,
                adjacent_constraints: adjacent,
            };
            let ghost h0 = holes@;
            holes.push(item);
            assert(hole_views(holes@) =~= hole_views(h0).push(item@));
            assert(clause_hole(*p, parent@, views(related@), views(adjacent@)) =~= seq![item@]);
        },
        None => {
            assert(hole_views(holes@) =~= hole_views(old(holes)@) + clause_hole(*p, parent@, views(related@), views(adjacent@)));
        },
    }
}

fn push_numbered_hole(
    ps: &Vec<Prose>,
    i: usize,
    parent: &HoleParent,
    related: &Vec<String>,
    label: &str,
    holes: &mut Vec<HoleWithContext>,
)
    requires
        i < ps.len(),
    ensures
        hole_views(final(holes)@) == hole_views(old(holes)@) + clause_hole(
            ps@[i as int],
            parent@,
            views(related@),
            seq![label@ + decimal((i + 1) as nat)],
        ),
{
    let mut note = String::new();
    push_str(&mut note, label);
    push_decimal(&mut note, i as u64 + 1);
    let mut adjacent: Vec<String> = Vec::new();
    adjacent.push(note);
    assert(views(adjacent@) =~= seq![label@ + decimal((i + 1) as nat)]);
    push_clause_hole(&ps[i], parent, related, adjacent, holes);
}

fn push_returns_hole(behavior: &Behavior, related: &Vec<String>, holes: &mut Vec<HoleWithContext>)
    ensures
        hole_views(final(holes)@) == hole_views(old(holes)@) + returns_hole(*behavior, views(related@)),
{
    if let Some(ret_clause) = &behavior.returns {
        let ret = HoleParent::BehaviorReturns { behavior_name: behavior.name.value.clone() };
        let adjacent: Vec<String> = Vec::new();
        assert(views(adjacent@) =~= Seq::<Seq<char>>::empty());
        push_clause_hole(ret_clause, &ret, related, adjacent, holes);
    } else {
        assert(hole_views(holes@) =~= hole_views(old(holes)@) + returns_hole(*behavior, views(related@)));
    }
}

fn push_numbered_holes(
    ps: &Vec<Prose>,
    parent: &HoleParent,
    related: &Vec<String>,
    label: &str,
    holes: &mut Vec<HoleWithContext>,
)
    ensures
        hole_views(final(holes)@) == hole_views(old(holes)@) + numbered_holes(ps@, ps@.len(), parent@, views(related@), label@),
{
    let ghost start = hole_views(holes@);
    let ghost rel = views(related@);
    let mut i: usize = 0;
    while i < ps.len()
        invariant
            i <= ps@.len(),
            rel == views(related@),
            hole_views(holes@) == start + numbered_holes(ps@, i as nat, parent@, rel, label@),
        decreases ps.len() - i,
    {
        let ghost before = hole_views(holes@);
        push_numbered_hole(ps, i, parent, related, label, holes);
        proof {
            let c = clause_hole(ps@[i as int], parent@, rel, seq![label@ + decimal((i + 1) as nat)]);
            assert(numbered_holes(ps@, (i + 1) as nat, parent@, rel, label@) == numbered_holes(ps@, i as nat, parent@, rel, label@) + c);
            assert(hole_views(holes@) =~= start + numbered_holes(ps@, (i + 1) as nat, parent@, rel, label@));
        }
        i += 1;
    }
}

/// Extract holes from a behavior definition.
///
/// Behavior clauses are prose; holes in them are found by scanning the text
/// for `[?...]`.
fn push_given_holes(behavior: &Behavior, related: &Vec<String>, holes: &mut Vec<HoleWithContext>)
    ensures
        hole_views(final(holes)@) == hole_views(old(holes)@) + given_holes(*behavior, views(related@)),
{
    let sig = HoleParent::BehaviorSignature {
        behavior_name: behavior.name.value.clone(),
        position: SignaturePosition::Input,
    };
    push_numbered_holes(&behavior.given, &sig, related, "given clause #", holes);
}

fn push_constraint_holes(
    clauses: &Vec<Prose>,
    behavior: &Behavior,
    kind: &str,
    label: &str,
    related: &Vec<String>,
    holes: &mut Vec<HoleWithContext>,
)
    ensures
        hole_views(final(holes)@) == hole_views(old(holes)@) + constraint_holes(*behavior, clauses@, kind@, label@, views(related@)),
{
    let parent = HoleParent::BehaviorConstraint {
        behavior_name: behavior.name.value.clone(),
        constraint_kind: kind.to_string(),
    };
    push_numbered_holes(clauses, &parent, related, label, holes);
}

/// Extract holes from a behavior definition.
///
/// Behavior clauses are prose; holes in them are found by scanning the text
/// for `[?...]`.
fn extract_behavior_holes(behavior: &Behavior, all_concepts: &Vec<String>, collection: &mut HoleCollection)
    ensures
        hole_views(final(collection).holes@) == hole_views(old(collection).holes@) + behavior_holes(
            *behavior,
            views(all_concepts@),
        ),
{
    let related = find_behavior_concepts(behavior, all_concepts);
    let ghost s0 = hole_views(collection.holes@);
    push_given_holes(behavior, &related, &mut collection.holes);
    let ghost s1 = hole_views(collection.holes@);
    push_returns_hole(behavior, &related, &mut collection.holes);
    let ghost s2 = hole_views(collection.holes@);
    push_constraint_holes(&behavior.requires, behavior, "requires", "requires clause #", &related, &mut collection.holes);
    let ghost s3 = hole_views(collection.holes@);
    push_constraint_holes(&behavior.ensures, behavior, "ensures", "ensures clause #", &related, &mut collection.holes);
    proof {
        let rel = views(related@);
        let g = given_holes(*behavior, rel);
        let r = returns_hole(*behavior, rel);
        let q = constraint_holes(*behavior, behavior.requires@, "requires"@, "requires clause #"@, rel);
        let e = constraint_holes(*behavior, behavior.ensures@, "ensures"@, "ensures clause #"@, rel);
        lemma_concat_associative(s0, g, r);
        lemma_concat_associative(s0, g + r, q);
        lemma_concat_associative(s0, g + r + q, e);
    }
}

/// The names of the concepts of a list of contents, in order.
pub open spec fn concept_names(cs: Seq<SectionContent>) -> Seq<Seq<char>> {
    concat_map(
        cs,
        |c: SectionContent|
            match c {
                SectionContent::Concept(concept) => seq![concept.name.value@],
                _ => Seq::empty(),
            },
    )
}

/// The holes of one section content.
pub open spec fn content_holes(c: SectionContent, all: Seq<Seq<char>>) -> Seq<HoleView> {
    match c {
        SectionContent::Concept(concept) => concept_holes(concept, all),
        SectionContent::Behavior(b) => behavior_holes(b, all),
        _ => Seq::empty(),
    }
}

/// The holes of a file, in source order; related concepts are drawn from
/// all concepts of the file.
pub open spec fn holes_of(f: SourceFile) -> Seq<HoleView> {
    let cs = all_contents(f);
    concat_map(cs, |c: SectionContent| content_holes(c, concept_names(cs)))
}

/// Extract all holes from a source file.
pub fn extract_holes(ast: &SourceFile) -> (r: HoleCollection)
    ensures
        hole_views(r.holes@) == holes_of(*ast),
{
    let contents = contents_of(ast);
    let ghost cs = contents@.map_values(|c: &SectionContent| *c);
    let ghost nf = |c: SectionContent|
        match c {
            SectionContent::Concept(concept) => seq![concept.name.value@],
            _ => Seq::empty(),
        };
    let mut names: Vec<String> = Vec::new();
    let mut i: usize = 0;
    while i < contents.len()
        invariant
            i <= contents@.len(),
            cs == contents@.map_values(|c: &SectionContent| *c),
            nf == (|c: SectionContent|
                match c {
                    SectionContent::Concept(concept) => seq![concept.name.value@],
                    _ => Seq::empty(),
                }),
            views(names@) == concat_map(cs.take(i as int), nf),
        decreases contents.len() - i,
    {
        proof {
            lemma_concat_map_push(cs, nf, i as int);
        }
        assert(cs[i as int] == *contents@[i as int]);
        if let SectionContent::Concept(concept) = contents[i] {
            push_views(&mut names, concept.name.value.clone());
        }
        i += 1;
    }
    assert(cs.take(i as int) =~= cs);
    let ghost all = views(names@);
    let ghost hf = |c: SectionContent| content_holes(c, all);
    let mut collection = HoleCollection { holes: Vec::new() };
    assert(hole_views(collection.holes@) =~= Seq::<HoleView>::empty());
    let mut i: usize = 0;
    while i < contents.len()
        invariant
            i <= contents@.len(),
            cs == contents@.map_values(|c: &SectionContent| *c),
            all == views(names@),
            hf == (|c: SectionContent| content_holes(c, all)),
            hole_views(collection.holes@) == concat_map(cs.take(i as int), hf),
        decreases contents.len() - i,
    {
        proof {
            lemma_concat_map_push(cs, hf, i as int);
        }
        assert(cs[i as int] == *contents@[i as int]);
        match contents[i] {
            SectionContent::Concept(concept) => extract_concept_holes(concept, &names, &mut collection),
            SectionContent::Behavior(behavior) => extract_behavior_holes(behavior, &names, &mut collection),
            _ => {
                assert(hole_views(collection.holes@) =~= hole_views(collection.holes@) + content_holes(cs[i as int], all));
            },
        }
        i += 1;
    }
    assert(cs.take(i as int) =~= cs);
    collection
}

/// No hole lies both in a concept and in a behavior: for any names, the
/// holes `in_concept` lists and those `in_behavior` lists share no element,
/// and together they are at most all the holes.
pub proof fn concept_and_behavior_holes_are_disjoint(hs: Seq<HoleWithContext>, c: Seq<char>, b: Seq<char>)
    ensures
        forall|x: HoleWithContext|
            !(#[trigger] holes_in_concept(hs, c).contains(x) && holes_in_behavior(hs, b).contains(x)),
        holes_in_concept(hs, c).len() + holes_in_behavior(hs, b).len() <= hs.len(),
{
    let pc = |h: HoleWithContext| in_concept_spec(h, c);
    let pb = |h: HoleWithContext| in_behavior_spec(h, b);
    assert(holes_in_concept(hs, c) == hs.filter(pc)) by {
        assert((|h: HoleWithContext| in_concept_spec(h, c)) =~= pc);
    }
    assert(holes_in_behavior(hs, b) == hs.filter(pb)) by {
        assert((|h: HoleWithContext| in_behavior_spec(h, b)) =~= pb);
    }
    crate::text::lemma_filter_contains_iff(hs, pc);
    crate::text::lemma_filter_contains_iff(hs, pb);
    crate::text::lemma_filter_disjoint_len(hs, pc, pb);
}

} // verus!
