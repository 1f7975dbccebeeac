//! The parts of the semantic-analysis client that need no server: its error
//! and result types, cache keys, the comparison prompt and reading the JSON
//! out of a model's reply.
use vstd::prelude::*;

use std::collections::hash_map::DefaultHasher;
use std::hash::Hasher;

use vstd::std_specs::hash::DefaultHasherAdditionalSpecFns;
use vstd::string::StringSliceAdditionalSpecFns;
use crate::text::{
    chars_of, find, find_after, find_at_or_after, find_spec, hex_fixed, occurs_at, push_hex_fixed,
    push_str, rfind, rfind_spec, str_eq, string_from_chars, string_from_range, trim, trim_bounds,
    chars_of_string, trimmed_range,
};

verus! {

// ============================================================================
// Types
// ============================================================================

/// Errors that can occur during MCP client operations.
#[derive(Debug)]
pub enum ClientError {
    ConnectionFailed(String),
    SamplingNotSupported,
    RequestFailed(String),
    InvalidResponse(String),
    Timeout,
    Offline,
}

/// The message of a client error.
pub open spec fn client_error_text(e: ClientError) -> Seq<char> {
    match e {
        ClientError::ConnectionFailed(s) => "Connection failed: "@ + s@,
        ClientError::SamplingNotSupported => "Sampling not supported by server"@,
        ClientError::RequestFailed(s) => "Request failed: "@ + s@,
        ClientError::InvalidResponse(s) => "Invalid response: "@ + s@,
        ClientError::Timeout => "Timeout waiting for response"@,
        ClientError::Offline => "Offline mode: no MCP server available"@,
    }
}

impl ClientError {
    /// The error's message.
    pub fn message(&self) -> (r: String)
        ensures
            r@ == client_error_text(*self),
    {
        let mut r = String::new();
        match self {
            ClientError::ConnectionFailed(s) => {
                push_str(&mut r, "Connection failed: ");
                push_str(&mut r, s.as_str());
            },
            ClientError::SamplingNotSupported => push_str(&mut r, "Sampling not supported by server"),
            ClientError::RequestFailed(s) => {
                push_str(&mut r, "Request failed: ");
                push_str(&mut r, s.as_str());
            },
            ClientError::InvalidResponse(s) => {
                push_str(&mut r, "Invalid response: ");
                push_str(&mut r, s.as_str());
            },
            ClientError::Timeout => push_str(&mut r, "Timeout waiting for response"),
            ClientError::Offline => push_str(&mut r, "Offline mode: no MCP server available"),
        }
        assert(r@ =~= client_error_text(*self));
        r
    }
}

/// Types of semantic discrepancies.
#[derive(Debug, Clone, Copy, PartialEq, Eq, Structural)]
pub enum DiscrepancyKind {
    /// Meaning has changed significantly.
    MeaningChanged,
    /// Constraint weakened (less restrictive).
    ConstraintWeakened,
    /// Constraint strengthened (more restrictive).
    ConstraintStrengthened,
    /// Intent appears different.
    IntentDrift,
    /// Ambiguity introduced.
    AmbiguityIntroduced,
    /// Terminology inconsistency.
    TerminologyChanged,
}

/// Severity of a discrepancy.
#[derive(Debug, Clone, Copy, PartialEq, Eq, Structural)]
pub enum DiscrepancySeverity {
    Low,
    Medium,
    High,
    Critical,
}

/// A discrepancy detected between old and new spec.
#[derive(Debug, Clone)]
pub struct Discrepancy {
    /// Type of discrepancy.
    pub kind: DiscrepancyKind,
    /// Identifier of the affected element.
    pub element_id: String,
    /// Description of the discrepancy.
    pub description: String,
    /// Severity level.
    pub severity: DiscrepancySeverity,
}

/// The wire name of a discrepancy kind.
pub open spec fn discrepancy_kind_name(k: DiscrepancyKind) -> Seq<char> {
    match k {
        DiscrepancyKind::MeaningChanged => "meaning_changed"@,
        DiscrepancyKind::ConstraintWeakened => "constraint_weakened"@,
        DiscrepancyKind::ConstraintStrengthened => "constraint_strengthened"@,
        DiscrepancyKind::IntentDrift => "intent_drift"@,
        DiscrepancyKind::AmbiguityIntroduced => "ambiguity_introduced"@,
        DiscrepancyKind::TerminologyChanged => "terminology_changed"@,
    }
}

impl DiscrepancyKind {
    /// Get the string representation of this discrepancy kind.
    pub fn as_str(&self) -> (r: &'static str)
        ensures
            r@ == discrepancy_kind_name(*self),
    {
        match self {
            DiscrepancyKind::MeaningChanged => "meaning_changed",
            DiscrepancyKind::ConstraintWeakened => "constraint_weakened",
            DiscrepancyKind::ConstraintStrengthened => "constraint_strengthened",
            DiscrepancyKind::IntentDrift => "intent_drift",
            DiscrepancyKind::AmbiguityIntroduced => "ambiguity_introduced",
            DiscrepancyKind::TerminologyChanged => "terminology_changed",
        }
    }

    /// The kind with the given wire name, if any.
    pub fn from_name(s: &str) -> (r: Option<DiscrepancyKind>)
        ensures
            match r {
                Some(k) => discrepancy_kind_name(k) == s@,
                None => forall|k: DiscrepancyKind| discrepancy_kind_name(k) != s@,
            },
    {
        if str_eq(s, "meaning_changed") {
            Some(DiscrepancyKind::MeaningChanged)
        } else if str_eq(s, "constraint_weakened") {
            Some(DiscrepancyKind::ConstraintWeakened)
        } else if str_eq(s, "constraint_strengthened") {
            Some(DiscrepancyKind::ConstraintStrengthened)
        } else if str_eq(s, "intent_drift") {
            Some(DiscrepancyKind::IntentDrift)
        } else if str_eq(s, "ambiguity_introduced") {
            Some(DiscrepancyKind::AmbiguityIntroduced)
        } else if str_eq(s, "terminology_changed") {
            Some(DiscrepancyKind::TerminologyChanged)
        } else {
            None
        }
    }
}

/// Distinct discrepancy kinds have distinct wire names, so a kind's name
/// reads back as that kind (`from_name` of `as_str`).
pub proof fn discrepancy_kind_names_distinct(a: DiscrepancyKind, b: DiscrepancyKind)
    requires
        discrepancy_kind_name(a) == discrepancy_kind_name(b),
    ensures
        a == b,
{
    reveal_strlit("meaning_changed");
    reveal_strlit("constraint_weakened");
    reveal_strlit("constraint_strengthened");
    reveal_strlit("intent_drift");
    reveal_strlit("ambiguity_introduced");
    reveal_strlit("terminology_changed");
    assert("meaning_changed"@.len() == 15);
    assert("constraint_weakened"@.len() == 19);
    assert("constraint_strengthened"@.len() == 23);
    assert("intent_drift"@.len() == 12);
    assert("ambiguity_introduced"@.len() == 20);
    assert("terminology_changed"@.len() == 19);
    assert("constraint_weakened"@[0] == 'c');
    assert("terminology_changed"@[0] == 't');
}

/// The severity a wire name gives; unknown names count as medium.
pub open spec fn severity_named(s: Seq<char>) -> DiscrepancySeverity {
    if s == "low"@ {
        DiscrepancySeverity::Low
    } else if s == "high"@ {
        DiscrepancySeverity::High
    } else if s == "critical"@ {
        DiscrepancySeverity::Critical
    } else {
        DiscrepancySeverity::Medium
    }
}

impl DiscrepancySeverity {
    /// The severity with the given wire name; unknown names give medium.
    pub fn from_name(s: &str) -> (r: DiscrepancySeverity)
        ensures
            r == severity_named(s@),
    {
        if str_eq(s, "low") {
            DiscrepancySeverity::Low
        } else if str_eq(s, "high") {
            DiscrepancySeverity::High
        } else if str_eq(s, "critical") {
            DiscrepancySeverity::Critical
        } else {
            DiscrepancySeverity::Medium
        }
    }
}

// ============================================================================
// Cache keys
// ============================================================================

/// The hash of the three strings, each written as `str::hash` writes it
/// (its UTF-8 bytes, then the byte 0xff) into a fresh `DefaultHasher`.
pub open spec fn content_hash(old: &str, new: &str, element_id: &str) -> u64 {
    DefaultHasher::spec_finish(
        seq![old.spec_bytes(), seq![0xffu8], new.spec_bytes(), seq![0xffu8], element_id.spec_bytes(), seq![0xffu8]],
    )
}

/// Writes a string into a hasher the way `str::hash` does.
fn hash_str(hasher: &mut DefaultHasher, s: &str)
    ensures
        final(hasher)@ == old(hasher)@.push(s.spec_bytes()).push(seq![0xffu8]),
{
    hasher.write(s.as_bytes());
    let end: [u8; 1] = [0xffu8];
    hasher.write(&end);
    assert(end@ =~= seq![0xffu8]);
}

/// Compute a cache key from content hashes: sixteen lower-case hexadecimal digits.
pub fn compute_cache_key(old: &str, new: &str, element_id: &str) -> (key: String)
    ensures
        key@ == hex_fixed(content_hash(old, new, element_id) as nat, 16),
{
    let mut hasher = DefaultHasher::new();
    hash_str(&mut hasher, old);
    hash_str(&mut hasher, new);
    hash_str(&mut hasher, element_id);
    assert(hasher@ =~= seq![old.spec_bytes(), seq![0xffu8], new.spec_bytes(), seq![0xffu8], element_id.spec_bytes(), seq![0xffu8]]);
    let h = hasher.finish();
    let mut key = String::new();
    push_hex_fixed(&mut key, h, 16);
    key
}

// ============================================================================
// Prompt
// ============================================================================

/// The prompt asking a model to compare two versions of an element.
pub open spec fn comparison_prompt(old: Seq<char>, new: Seq<char>, element_type: Seq<char>, element_id: Seq<char>) -> Seq<char> {
    "You are analyzing changes to a software specification for semantic drift.\n\n## Task\nCompare the OLD and NEW versions of a "@ + element_type + " specification element (ID: "@ + element_id + ").\nDetermine if the meaning, intent, or constraints have changed semantically (not just textually).\n\n## OLD Version\n```\n"@ + old + "\n```\n\n## NEW Version\n```\n"@ + new + "\n```\n\n## Instructions\nAnalyze the semantic differences and respond in the following JSON format:\n\n```json\n{\n  \"alignment_score\": <float 0.0-1.0, where 1.0 means semantically identical>,\n  \"discrepancies\": [\n    {\n      \"kind\": \"<meaning_changed|constraint_weakened|constraint_strengthened|intent_drift|ambiguity_introduced|terminology_changed>\",\n      \"element_id\": \"<affected element>\",\n      \"description\": \"<brief explanation>\",\n      \"severity\": \"<low|medium|high|critical>\"\n    }\n  ],\n  \"confidence\": <float 0.0-1.0>,\n  \"reasoning\": \"<brief explanation of your analysis>\"\n}\n```\n\nFocus on:\n1. Changes in meaning or intent (not just wording)\n2. Constraints that became more or less restrictive\n3. New ambiguities or clarifications\n4. Terminology changes that affect understanding\n\nIf the changes are purely cosmetic (formatting, synonyms with same meaning), the alignment_score should be close to 1.0.\n"@
}

/// Build a prompt for semantic comparison.
pub fn build_semantic_comparison_prompt(old_content: &str, new_content: &str, element_type: &str, element_id: &str) -> (prompt: String)
    ensures
        prompt@ == comparison_prompt(old_content@, new_content@, element_type@, element_id@),
{
    let mut prompt = String::new();
    push_str(&mut prompt, "You are analyzing changes to a software specification for semantic drift.\n\n## Task\nCompare the OLD and NEW versions of a ");
    push_str(&mut prompt, element_type);
    push_str(&mut prompt, " specification element (ID: ");
    push_str(&mut prompt, element_id);
    push_str(&mut prompt, ").\nDetermine if the meaning, intent, or constraints have changed semantically (not just textually).\n\n## OLD Version\n```\n");
    push_str(&mut prompt, old_content);
    push_str(&mut prompt, "\n```\n\n## NEW Version\n```\n");
    push_str(&mut prompt, new_content);
    push_str(&mut prompt, "\n```\n\n## Instructions\nAnalyze the semantic differences and respond in the following JSON format:\n\n```json\n{\n  \"alignment_score\": <float 0.0-1.0, where 1.0 means semantically identical>,\n  \"discrepancies\": [\n    {\n      \"kind\": \"<meaning_changed|constraint_weakened|constraint_strengthened|intent_drift|ambiguity_introduced|terminology_changed>\",\n      \"element_id\": \"<affected element>\",\n      \"description\": \"<brief explanation>\",\n      \"severity\": \"<low|medium|high|critical>\"\n    }\n  ],\n  \"confidence\": <float 0.0-1.0>,\n  \"reasoning\": \"<brief explanation of your analysis>\"\n}\n```\n\nFocus on:\n1. Changes in meaning or intent (not just wording)\n2. Constraints that became more or less restrictive\n3. New ambiguities or clarifications\n4. Terminology changes that affect understanding\n\nIf the changes are purely cosmetic (formatting, synonyms with same meaning), the alignment_score should be close to 1.0.\n");
    assert(prompt@ =~= comparison_prompt(old_content@, new_content@, element_type@, element_id@));
    prompt
}

// ============================================================================
// Reading JSON out of a reply
// ============================================================================

/// The JSON in a fenced `json` block: from after the fence to the first
/// "```\n" after the block's start, else to the last "```"; trimmed. None when
/// there is no such block or it is empty.
pub open spec fn fenced_json(r: Seq<char>) -> Option<Seq<char>> {
    match find_spec(r, "```json"@) {
        Some(start) => {
            let e = match find_at_or_after(r, "```\n"@, start) {
                Some(e) => e,
                None => match rfind_spec(r, "```"@) {
                    Some(e) => e,
                    None => 0,
                },
            };
            if start + 7 < e {
                Some(trim(r.subrange(start + 7, e)))
            } else {
                None
            }
        },
        None => None,
    }
}

/// The JSON in the first plain fenced block: its trimmed content when it
/// starts with `{`, else the trimmed rest after its first line.
pub open spec fn plain_block_json(r: Seq<char>) -> Option<Seq<char>> {
    match find_spec(r, "```"@) {
        Some(start) => match find_at_or_after(r, "```"@, start + 3) {
            Some(e) => block_json(trim(r.subrange(start + 3, e))),
            None => None,
        },
        None => None,
    }
}

/// The JSON in the trimmed content `t` of a fenced block: all of it when it
/// starts with `{`, else the trimmed rest after its first line.
pub open spec fn block_json(t: Seq<char>) -> Option<Seq<char>> {
    if t.len() > 0 && t[0] == '{' {
        Some(t)
    } else {
        match find_spec(t, "\n"@) {
            Some(n) => Some(trim(t.subrange(n, t.len() as int))),
            None => None,
        }
    }
}

/// The text from the first `{` to the last `}`.
pub open spec fn raw_json(r: Seq<char>) -> Option<Seq<char>> {
    match find_spec(r, "{"@) {
        Some(s) => match rfind_spec(r, "}"@) {
            Some(e) => Some(r.subrange(s, e + 1)),
            None => None,
        },
        None => None,
    }
}

/// The raw-object fallback can cut `r`: its last `}` does not come before its first `{`
/// (where it does, cutting would panic).
pub open spec fn raw_cut_ok(r: Seq<char>) -> bool {
    match find_spec(r, "{"@) {
        Some(s) => match rfind_spec(r, "}"@) {
            Some(e) => s <= e + 1,
            None => true,
        },
        None => true,
    }
}

/// What `extract_json` returns: a fenced `json` block, else a plain fenced
/// block, else the raw object, else the whole reply.
pub open spec fn extracted_json(r: Seq<char>) -> Seq<char> {
    match fenced_json(r) {
        Some(t) => t,
        None => match plain_block_json(r) {
            Some(t) => t,
            None => match raw_json(r) {
                Some(t) => t,
                None => r,
            },
        },
    }
}

/// A bare JSON object (it starts with `{`, ends with `}` and holds no code
/// fence) has no fenced block and is its own raw object.
pub(crate) proof fn lemma_bare_object(r: Seq<char>)
    requires
        r.len() > 0,
        r[0] == '{',
        r.last() == '}',
        !crate::text::seq_contains(r, "```"@),
    ensures
        !crate::text::seq_contains(r, "```json"@),
        plain_block_json(r) is None,
        raw_json(r) == Some(r),
{
    reveal_strlit("```json");
    reveal_strlit("```");
    reveal_strlit("{");
    reveal_strlit("}");
    assert(!crate::text::seq_contains(r, "```json"@)) by {
        assert forall|i: int| !crate::text::occurs_at(r, "```json"@, i) by {
            if crate::text::occurs_at(r, "```json"@, i) {
                assert(r.subrange(i, i + 3) =~= "```"@);
                assert(crate::text::occurs_at(r, "```"@, i));
            }
        }
    }
    assert(crate::text::occurs_at(r, "{"@, 0)) by {
        assert(r.subrange(0, 1) =~= "{"@);
    }
    assert(crate::text::first_occurrence(r, "{"@, 0));
    let f = find_spec(r, "{"@)->0;
    assert(f == 0);
    let l = r.len() - 1;
    assert(crate::text::occurs_at(r, "}"@, l)) by {
        assert(r.subrange(l, l + 1) =~= "}"@);
    }
    assert(crate::text::last_occurrence(r, "}"@, l));
    let e = rfind_spec(r, "}"@)->0;
    assert(e == l);
    assert(r.subrange(0, r.len() as int) =~= r);
}

/// A reply that is one bare JSON object (it starts with `{`, ends with `}`
/// and holds no code fence) is taken whole.
pub proof fn bare_object_reply_taken_whole(r: Seq<char>)
    requires
        r.len() > 0,
        r[0] == '{',
        r.last() == '}',
        !crate::text::seq_contains(r, "```"@),
    ensures
        extracted_json(r) == r,
{
    lemma_bare_object(r);
}

/// The JSON of the first plain fenced block, as `plain_block_json` says.
pub fn plain_block(r: &Vec<char>) -> (o: Option<String>)
    ensures
        match o {
            Some(t) => plain_block_json(r@) == Some(t@),
            None => plain_block_json(r@) is None,
        },
{
    let fence = chars_of("```");
    proof {
        reveal_strlit("```");
    }
    let n = r.len();
    let start = match find(r, &fence) {
        Some(i) => i,
        None => return None,
    };
    let e = match find_after(r, &fence, start + 3) {
        Some(e) => e,
        None => return None,
    };
    let ts = trimmed_range(r, start + 3, e);
    block_content(ts)
}

/// The JSON in the trimmed content of a fenced block, as `block_json` says.
fn block_content(ts: String) -> (o: Option<String>)
    ensures
        match o {
            Some(t) => block_json(ts@) == Some(t@),
            None => block_json(ts@) is None,
        },
{
    let t = chars_of_string(&ts);
    if t.len() > 0 && t[0] == '{' {
        return Some(ts);
    }
    let nl = chars_of("\n");
    match find(&t, &nl) {
        Some(n) => Some(trimmed_range(&t, n, t.len())),
        None => None,
    }
}

/// The text from the first `{` to the last `}`, as `raw_json` says.
pub fn raw_object(r: &Vec<char>) -> (o: Option<String>)
    requires
        raw_cut_ok(r@),
    ensures
        match o {
            Some(t) => raw_json(r@) == Some(t@),
            None => raw_json(r@) is None,
        },
{
    let open = chars_of("{");
    let close = chars_of("}");
    proof {
        reveal_strlit("}");
    }
    let n = r.len();
    match find(r, &open) {
        Some(s) => match rfind(r, &close) {
            Some(e) => Some(string_from_range(r, s, e + 1)),
            None => None,
        },
        None => None,
    }
}

/// The JSON of a fenced `json` block, as `fenced_json` says.
fn fenced(r: &Vec<char>) -> (o: Option<String>)
    ensures
        match o {
            Some(t) => fenced_json(r@) == Some(t@),
            None => fenced_json(r@) is None,
        },
{
    let tag = chars_of("```json");
    proof {
        reveal_strlit("```json");
    }
    let n = r.len();
    let start = match find(r, &tag) {
        Some(i) => i,
        None => return None,
    };
    let close_nl = chars_of("```\n");
    let fence = chars_of("```");
    let e = match find_after(r, &close_nl, start) {
        Some(e) => e,
        None => match rfind(r, &fence) {
            Some(e) => e,
            None => 0,
        },
    };
    if start + 7 < e {
        proof {
            if let Some(x) = find_at_or_after(r@, "```\n"@, start as int) {
                assert(occurs_at(r@, "```\n"@, x));
            } else if let Some(x) = rfind_spec(r@, "```"@) {
                assert(occurs_at(r@, "```"@, x));
            }
        }
        Some(trimmed_range(r, start + 7, e))
    } else {
        None
    }
}

/// Extract JSON from a response that might have markdown code blocks.
pub fn extract_json(response: &str) -> (json: String)
    requires
        fenced_json(response@) is Some || plain_block_json(response@) is Some || raw_cut_ok(
            response@,
        ),
    ensures
        json@ == extracted_json(response@),
{
    let r = chars_of(response);
    match fenced(&r) {
        Some(t) => return t,
        None => {},
    }
    match plain_block(&r) {
        Some(t) => return t,
        None => {},
    }
    match raw_object(&r) {
        Some(t) => t,
        None => string_from_chars(&r),
    }
}

/// Whether the raw-object fallback can cut `r`, as `raw_cut_ok` says.
pub fn raw_cut_allowed(r: &Vec<char>) -> (b: bool)
    ensures
        b == raw_cut_ok(r@),
{
    let open = chars_of("{");
    let close = chars_of("}");
    proof {
        reveal_strlit("{");
        reveal_strlit("}");
    }
    match find(r, &open) {
        Some(s) => match rfind(r, &close) {
            Some(e) => s <= e || s - e == 1,
            None => true,
        },
        None => true,
    }
}

/// The JSON in a reply, as `extract_json` gives it; `None` for a reply that
/// holds no fenced block and whose last `}` comes before its first `{`,
/// which cannot be cut.
pub fn try_extract_json(response: &str) -> (r: Option<String>)
    ensures
        match r {
            Some(t) => t@ == extracted_json(response@),
            None => !(fenced_json(response@) is Some || plain_block_json(response@) is Some || raw_cut_ok(
                response@,
            )),
        },
{
    let r = chars_of(response);
    match fenced(&r) {
        Some(t) => return Some(t),
        None => {},
    }
    match plain_block(&r) {
        Some(t) => return Some(t),
        None => {},
    }
    if !raw_cut_allowed(&r) {
        return None;
    }
    match raw_object(&r) {
        Some(t) => Some(t),
        None => Some(string_from_chars(&r)),
    }
}

// ============================================================================
// Hedging in a reply
// ============================================================================

/// The phrases that mark an answer as uncertain.
pub open spec fn hedging_phrases() -> Seq<Seq<char>> {
    seq![
        "might"@,
        "could be"@,
        "possibly"@,
        "perhaps"@,
        "uncertain"@,
        "not sure"@,
        "hard to tell"@,
        "difficult to determine"@,
        "may or may not"@,
        "unclear"@,
        "ambiguous"@,
    ]
}

/// The phrases that mark an answer as certain.
pub open spec fn strong_phrases() -> Seq<Seq<char>> {
    seq!["clearly"@, "definitely"@, "certainly"@, "obviously"@, "without doubt"@, "unambiguously"@]
}

/// How many of `phrases` occur in `text`.
pub open spec fn phrases_in(text: Seq<char>, phrases: Seq<Seq<char>>) -> nat {
    phrases.filter(|p: Seq<char>| crate::text::seq_contains(text, p)).len()
}

/// How many of `phrases` occur in `text`.
fn count_phrases(text: &str, phrases: &Vec<&str>) -> (n: usize)
    ensures
        n == phrases_in(text@, phrases@.map_values(|p: &str| p@)),
{
    let ghost ps = phrases@.map_values(|p: &str| p@);
    let ghost keep = |p: Seq<char>| crate::text::seq_contains(text@, p);
    let mut n: usize = 0;
    let mut i: usize = 0;
    while i < phrases.len()
        invariant
            i <= phrases@.len(),
            ps == phrases@.map_values(|p: &str| p@),
            keep == (|p: Seq<char>| crate::text::seq_contains(text@, p)),
            n == ps.take(i as int).filter(keep).len(),
            n <= i,
        decreases phrases.len() - i,
    {
        proof {
            crate::text::lemma_filter_take_push(ps, keep, i as int);
        }
        if crate::text::contains(text, phrases[i]) {
            n += 1;
        }
        i += 1;
    }
    assert(ps.take(ps.len() as int) =~= ps);
    n
}

/// How many hedging phrases and how many strong phrases a reply holds,
/// compared in lower case; the confidence of its analysis is lowered for the
/// first and raised for the second.
pub fn hedging_counts(response: &str) -> (r: (usize, usize))
    ensures
        r.0 == phrases_in(crate::text::lowercased(response@), hedging_phrases()),
        r.1 == phrases_in(crate::text::lowercased(response@), strong_phrases()),
{
    let lower = crate::text::to_lowercase(response);
    let hedging: Vec<&str> = vec![
        "might",
        "could be",
        "possibly",
        "perhaps",
        "uncertain",
        "not sure",
        "hard to tell",
        "difficult to determine",
        "may or may not",
        "unclear",
        "ambiguous",
    ];
    let strong: Vec<&str> = vec!["clearly", "definitely", "certainly", "obviously", "without doubt", "unambiguously"];
    assert(hedging@.map_values(|p: &str| p@) =~= hedging_phrases());
    assert(strong@.map_values(|p: &str| p@) =~= strong_phrases());
    (count_phrases(lower.as_str(), &hedging), count_phrases(lower.as_str(), &strong))
}

} // verus!
