//! The parts of typed-hole suggestion that need no model: the context
//! handed to a provider, the prompt built from it, the suggestions offered
//! when no model is available, and reading the JSON out of a reply.
use vstd::prelude::*;

use crate::client::{block_json, raw_cut_ok, raw_json, plain_block, raw_object, plain_block_json};
use crate::text::{
    chars_of, contains, find, find_after, find_at_or_after, find_spec, occurs_at, push_decimal,
    push_str, seq_contains, string_from_chars, trim, trimmed_range, decimal,
};

verus! {

/// Errors that can occur during LLM operations.
#[derive(Debug)]
pub enum LlmError {
    ApiKeyMissing,
    RequestFailed(String),
    InvalidResponse(String),
    RateLimited { retry_after_secs: u64 },
    Unavailable(String),
}

/// The message of an LLM error.
pub open spec fn llm_error_text(e: LlmError) -> Seq<char> {
    match e {
        LlmError::ApiKeyMissing => "API key not configured: set ANTHROPIC_API_KEY"@,
        LlmError::RequestFailed(s) => "Request failed: "@ + s@,
        LlmError::InvalidResponse(s) => "Invalid response: "@ + s@,
        LlmError::RateLimited { retry_after_secs } => "Rate limited: retry after "@ + decimal(
            retry_after_secs as nat,
        ) + " seconds"@,
        LlmError::Unavailable(s) => "Provider unavailable: "@ + s@,
    }
}

impl LlmError {
    /// The error's message.
    pub fn message(&self) -> (r: String)
        ensures
            r@ == llm_error_text(*self),
    {
        let mut r = String::new();
        match self {
            LlmError::ApiKeyMissing => push_str(&mut r, "API key not configured: set ANTHROPIC_API_KEY"),
            LlmError::RequestFailed(s) => {
                push_str(&mut r, "Request failed: ");
                push_str(&mut r, s.as_str());
            },
            LlmError::InvalidResponse(s) => {
                push_str(&mut r, "Invalid response: ");
                push_str(&mut r, s.as_str());
            },
            LlmError::RateLimited { retry_after_secs } => {
                push_str(&mut r, "Rate limited: retry after ");
                push_decimal(&mut r, *retry_after_secs);
                push_str(&mut r, " seconds");
            },
            LlmError::Unavailable(s) => {
                push_str(&mut r, "Provider unavailable: ");
                push_str(&mut r, s.as_str());
            },
        }
        assert(r@ =~= llm_error_text(*self));
        r
    }
}

/// Context gathered for a typed hole suggestion.
#[derive(Debug, Clone)]
pub struct HoleContext {
    /// The hole's type hint if present (e.g., "`Input` -> `Output`").
    pub type_hint: Option<String>,
    /// Named hole identifier if present.
    pub name: Option<String>,
    /// Parent context (concept field, behavior signature, etc.).
    pub parent_context: String,
    /// Surrounding code snippet.
    pub surrounding_code: String,
    /// Related concepts referenced nearby.
    pub related_concepts: Vec<String>,
    /// Adjacent constraints that provide additional context.
    pub adjacent_constraints: Vec<String>,
    /// The spec name.
    pub spec_name: Option<String>,
}

/// Providers that can generate hole suggestions.
pub trait LlmProvider {
    /// Check if the provider is available (API key set, etc.).
    fn is_available(&self) -> bool;

    /// Get the provider name for logging/debugging.
    fn name(&self) -> &'static str;
}

// ============================================================================
// Prompt
// ============================================================================

/// One line per item: `pre`, the item, `post`.
pub open spec fn wrapped_lines(pre: Seq<char>, post: Seq<char>, items: Seq<Seq<char>>) -> Seq<char>
    decreases items.len(),
{
    if items.len() == 0 {
        Seq::empty()
    } else {
        wrapped_lines(pre, post, items.drop_last()) + pre + items.last() + post
    }
}

/// The fixed instructions that end every hole prompt.
pub open spec fn hole_instructions() -> Seq<char> {
    "## Instructions\n\nSuggest 1-3 completions for the typed hole. For each suggestion, provide:\n1. The exact replacement text (what should replace the [?])\n2. A brief explanation of why it fits\n3. Your confidence (0.0-1.0)\n\nRespond in this JSON format:\n\n```json\n{\n  \"suggestions\": [\n    {\n      \"replacement\": \"the replacement text\",\n      \"explanation\": \"brief explanation\",\n      \"confidence\": 0.85,\n      \"type_based\": true\n    }\n  ]\n}\n```\n\nGuidelines:\n- If there's a type constraint, honor it exactly\n- Consider the parent context (what element contains this hole)\n- Use terminology consistent with nearby concepts\n- Higher confidence for type-constrained holes\n- Lower confidence for prose/description holes\n"@
}

/// The prompt asking a model to fill a typed hole.
pub open spec fn hole_prompt(c: HoleContext) -> Seq<char> {
    "You are helping complete a typed hole [?] in a Topos specification.\n\n"@ + (match c.spec_name {
        Some(n) => "Spec: "@ + n@ + "\n\n"@,
        None => Seq::empty(),
    }) + "## Hole Context\n\n"@ + "Location: "@ + c.parent_context@ + "\n"@ + (match c.type_hint {
        Some(t) => "Type constraint: `"@ + t@ + "`\n"@,
        None => Seq::empty(),
    }) + (match c.name {
        Some(n) => "Hole name: "@ + n@ + "\n"@,
        None => Seq::empty(),
    }) + "\n## Surrounding Code\n\n```topos\n"@ + c.surrounding_code@ + "\n```\n\n"@ + (if c.related_concepts@.len() > 0 {
        "## Related Concepts\n\n"@ + wrapped_lines("- `"@, "`\n"@, crate::text::views(c.related_concepts@)) + "\n"@
    } else {
        Seq::empty()
    }) + (if c.adjacent_constraints@.len() > 0 {
        "## Adjacent Constraints\n\n"@ + wrapped_lines("- "@, "\n"@, crate::text::views(c.adjacent_constraints@)) + "\n"@
    } else {
        Seq::empty()
    }) + hole_instructions()
}

/// Appends one line per item.
fn push_wrapped_lines(out: &mut String, pre: &str, post: &str, items: &Vec<String>)
    ensures
        final(out)@ == old(out)@ + wrapped_lines(pre@, post@, crate::text::views(items@)),
{
    let ghost start = out@;
    let ghost vs = crate::text::views(items@);
    let mut i: usize = 0;
    while i < items.len()
        invariant
            i <= items@.len(),
            vs == crate::text::views(items@),
            out@ == start + wrapped_lines(pre@, post@, vs.take(i as int)),
        decreases items.len() - i,
    {
        proof {
            assert(vs.take(i + 1).drop_last() =~= vs.take(i as int));
        }
        push_str(out, pre);
        push_str(out, items[i].as_str());
        push_str(out, post);
        i += 1;
    }
    assert(vs.take(vs.len() as int) =~= vs);
}

/// The part of the prompt up to the surrounding code.
pub open spec fn prompt_head(c: HoleContext) -> Seq<char> {
    "You are helping complete a typed hole [?] in a Topos specification.\n\n"@ + (match c.spec_name {
        Some(n) => "Spec: "@ + n@ + "\n\n"@,
        None => Seq::empty(),
    }) + "## Hole Context\n\n"@ + "Location: "@ + c.parent_context@ + "\n"@ + (match c.type_hint {
        Some(t) => "Type constraint: `"@ + t@ + "`\n"@,
        None => Seq::empty(),
    }) + (match c.name {
        Some(n) => "Hole name: "@ + n@ + "\n"@,
        None => Seq::empty(),
    })
}

/// Appends the part of the prompt up to the surrounding code.
fn push_prompt_head(prompt: &mut String, context: &HoleContext)
    ensures
        final(prompt)@ == old(prompt)@ + prompt_head(*context),
{
    let ghost start = prompt@;
    push_str(prompt, "You are helping complete a typed hole [?] in a Topos specification.\n\n");
    match &context.spec_name {
        Some(n) => {
            push_str(prompt, "Spec: ");
            push_str(prompt, n.as_str());
            push_str(prompt, "\n\n");
        },
        None => {},
    }
    push_str(prompt, "## Hole Context\n\n");
    push_str(prompt, "Location: ");
    push_str(prompt, context.parent_context.as_str());
    push_str(prompt, "\n");
    match &context.type_hint {
        Some(t) => {
            push_str(prompt, "Type constraint: `");
            push_str(prompt, t.as_str());
            push_str(prompt, "`\n");
        },
        None => {},
    }
    match &context.name {
        Some(n) => {
            push_str(prompt, "Hole name: ");
            push_str(prompt, n.as_str());
            push_str(prompt, "\n");
        },
        None => {},
    }
    assert(prompt@ =~= start + prompt_head(*context));
}

/// Build the prompt for hole suggestions.
pub fn build_hole_prompt(context: &HoleContext) -> (prompt: String)
    ensures
        prompt@ == hole_prompt(*context),
{
    let mut prompt = String::new();
    push_prompt_head(&mut prompt, context);
    let ghost a = prompt@;
    push_str(&mut prompt, "\n## Surrounding Code\n\n```topos\n");
    push_str(&mut prompt, context.surrounding_code.as_str());
    push_str(&mut prompt, "\n```\n\n");
    let ghost b = prompt@;
    if context.related_concepts.len() > 0 {
        push_str(&mut prompt, "## Related Concepts\n\n");
        push_wrapped_lines(&mut prompt, "- `", "`\n", &context.related_concepts);
        push_str(&mut prompt, "\n");
    }
    let ghost c = prompt@;
    if context.adjacent_constraints.len() > 0 {
        push_str(&mut prompt, "## Adjacent Constraints\n\n");
        push_wrapped_lines(&mut prompt, "- ", "\n", &context.adjacent_constraints);
        push_str(&mut prompt, "\n");
    }
    push_str(&mut prompt, "## Instructions\n\nSuggest 1-3 completions for the typed hole. For each suggestion, provide:\n1. The exact replacement text (what should replace the [?])\n2. A brief explanation of why it fits\n3. Your confidence (0.0-1.0)\n\nRespond in this JSON format:\n\n```json\n{\n  \"suggestions\": [\n    {\n      \"replacement\": \"the replacement text\",\n      \"explanation\": \"brief explanation\",\n      \"confidence\": 0.85,\n      \"type_based\": true\n    }\n  ]\n}\n```\n\nGuidelines:\n- If there's a type constraint, honor it exactly\n- Consider the parent context (what element contains this hole)\n- Use terminology consistent with nearby concepts\n- Higher confidence for type-constrained holes\n- Lower confidence for prose/description holes\n");
    assert(prompt@ =~= hole_prompt(*context));
    prompt
}

// ============================================================================
// Fallback suggestions
// ============================================================================

/// The kinds of suggestion offered when no model is available.
#[derive(Debug, Clone, Copy, PartialEq, Eq, Structural)]
pub enum FallbackKind {
    /// Use the hole's type hint directly.
    TypeHint,
    /// `UUID`, for ID fields.
    IdType,
    /// `DateTime`, for temporal fields.
    TemporalType,
    /// `Result<T, E>`, for behavior outputs.
    FallibleResult,
    /// A `TODO` placeholder when nothing else applies.
    Placeholder,
}

/// The suggestions offered, in order, when no model is available: the type
/// hint if there is one; for a field, `UUID` when its context mentions "id"
/// and `DateTime` when it mentions "date" or "time"; `Result<T, E>` for a
/// behavior output; a placeholder when none of these applies.
pub open spec fn fallback_kinds(c: HoleContext) -> Seq<FallbackKind> {
    let p = c.parent_context@;
    let found = (if c.type_hint is Some {
        seq![FallbackKind::TypeHint]
    } else {
        Seq::empty()
    }) + (if seq_contains(p, "field"@) {
        (if seq_contains(p, "id"@) {
            seq![FallbackKind::IdType]
        } else {
            Seq::empty()
        }) + (if seq_contains(p, "date"@) || seq_contains(p, "time"@) {
            seq![FallbackKind::TemporalType]
        } else {
            Seq::empty()
        })
    } else {
        Seq::empty()
    }) + (if seq_contains(p, "behavior"@) && seq_contains(p, "output"@) {
        seq![FallbackKind::FallibleResult]
    } else {
        Seq::empty()
    });
    if found.len() == 0 {
        seq![FallbackKind::Placeholder]
    } else {
        found
    }
}

/// The kinds of suggestion to offer when no model is available.
pub fn fallback_plan(context: &HoleContext) -> (r: Vec<FallbackKind>)
    ensures
        r@ == fallback_kinds(*context),
{
    let p = context.parent_context.as_str();
    let mut r: Vec<FallbackKind> = Vec::new();
    if context.type_hint.is_some() {
        r.push(FallbackKind::TypeHint);
    }
    if contains(p, "field") {
        if contains(p, "id") {
            r.push(FallbackKind::IdType);
        }
        if contains(p, "date") || contains(p, "time") {
            r.push(FallbackKind::TemporalType);
        }
    }
    if contains(p, "behavior") && contains(p, "output") {
        r.push(FallbackKind::FallibleResult);
    }
    let ghost found = r@;
    if r.len() == 0 {
        r.push(FallbackKind::Placeholder);
    }
    assert(found =~= (if context.type_hint is Some {
        seq![FallbackKind::TypeHint]
    } else {
        Seq::empty()
    }) + (if seq_contains(p@, "field"@) {
        (if seq_contains(p@, "id"@) {
            seq![FallbackKind::IdType]
        } else {
            Seq::empty()
        }) + (if seq_contains(p@, "date"@) || seq_contains(p@, "time"@) {
            seq![FallbackKind::TemporalType]
        } else {
            Seq::empty()
        })
    } else {
        Seq::empty()
    }) + (if seq_contains(p@, "behavior"@) && seq_contains(p@, "output"@) {
        seq![FallbackKind::FallibleResult]
    } else {
        Seq::empty()
    }));
    assert(r@ =~= fallback_kinds(*context));
    r
}

// ============================================================================
// Reading JSON out of a reply
// ============================================================================

/// The JSON in a fenced `json` block: from after the fence to the next "```", trimmed.
pub open spec fn fenced_json_block(r: Seq<char>) -> Option<Seq<char>> {
    match find_spec(r, "```json"@) {
        Some(start) => match find_at_or_after(r, "```"@, start + 7) {
            Some(e) => Some(trim(r.subrange(start + 7, e))),
            None => None,
        },
        None => None,
    }
}

/// What `extract_json` returns: a fenced `json` block, else a plain fenced
/// block, else the raw object, else the whole reply.
pub open spec fn extracted_hole_json(r: Seq<char>) -> Seq<char> {
    match fenced_json_block(r) {
        Some(t) => t,
        None => match plain_block_json(r) {
            Some(t) => t,
            None => match raw_json(r) {
                Some(t) => t,
                None => r,
            },
        },
    }
}

/// A reply that is one bare JSON object (it starts with `{`, ends with `}`
/// and holds no code fence) is taken whole.
pub proof fn bare_object_reply_taken_whole(r: Seq<char>)
    requires
        r.len() > 0,
        r[0] == '{',
        r.last() == '}',
        !seq_contains(r, "```"@),
    ensures
        extracted_hole_json(r) == r,
{
    crate::client::lemma_bare_object(r);
}

/// The JSON of a fenced `json` block, as `fenced_json_block` says.
fn fenced_block(r: &Vec<char>) -> (o: Option<String>)
    ensures
        match o {
            Some(t) => fenced_json_block(r@) == Some(t@),
            None => fenced_json_block(r@) is None,
        },
{
    let tag = chars_of("```json");
    proof {
        reveal_strlit("```json");
    }
    let n = r.len();
    let start = match find(r, &tag) {
        Some(i) => i,
        None => return None,
    };
    let fence = chars_of("```");
    match find_after(r, &fence, start + 7) {
        Some(e) => Some(trimmed_range(r, start + 7, e)),
        None => None,
    }
}

/// Extract JSON from a response that might have markdown code blocks.
pub fn extract_json(response: &str) -> (json: String)
    requires
        fenced_json_block(response@) is Some || plain_block_json(response@) is Some || raw_cut_ok(
            response@,
        ),
    ensures
        json@ == extracted_hole_json(response@),
{
    let r = chars_of(response);
    match fenced_block(&r) {
        Some(t) => return t,
        None => {},
    }
    match plain_block(&r) {
        Some(t) => return t,
        None => {},
    }
    match raw_object(&r) {
        Some(t) => t,
        None => string_from_chars(&r),
    }
}

/// The JSON in a reply, as `extract_json` gives it; `None` for a reply that
/// holds no fenced block and whose last `}` comes before its first `{`,
/// which cannot be cut.
pub fn try_extract_json(response: &str) -> (r: Option<String>)
    ensures
        match r {
            Some(t) => t@ == extracted_hole_json(response@),
            None => !(fenced_json_block(response@) is Some || plain_block_json(response@) is Some
                || raw_cut_ok(response@)),
        },
{
    let r = chars_of(response);
    match fenced_block(&r) {
        Some(t) => return Some(t),
        None => {},
    }
    match plain_block(&r) {
        Some(t) => return Some(t),
        None => {},
    }
    if !crate::client::raw_cut_allowed(&r) {
        return None;
    }
    match raw_object(&r) {
        Some(t) => Some(t),
        None => Some(string_from_chars(&r)),
    }
}

} // verus!
