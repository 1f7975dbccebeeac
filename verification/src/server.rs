//! The Model Context Protocol tools of Topos: what each tool computes from
//! the specifications and sources it is given, and the text it answers
//! with.
use vstd::prelude::*;

use crate::anchors::{
    anchor_attr, anchor_kind_label, anchor_req_id, anchors_of_kind, derefs, generated_spec,
    invalid_of, invalid_view, orphan_view, orphans_of, reference_kind_label, valid_of, validate_anchors,
    Anchor, AnchorCollection, AnchorKind, AnchorReferenceKind, AnchorValidation, InvalidAnchor,
    OrphanSpecElement,
};
use crate::context::OutputFormat;
use crate::holes::{
    offset_in, position_in, position_text, HoleCollection, HoleParent, HoleWithContext, ParentView,
};
use crate::legacy::{Diagnostic, DiagnosticView, LegacySeverity};
use crate::span::Span;
use crate::strmap::StrMap;
use crate::symbols::{Symbol, SymbolTable, TableModel};
use crate::text::{
    concat_map, contains, decimal, join, joined, lemma_concat_map_push, push_decimal,
    push_decimal_succ, push_str,
    seq_contains, str_eq, to_lowercase, lowercased, views,
};
use crate::traceability::{set_items, TraceabilityGraph};

verus! {

/// The Topos MCP server.
#[derive(Debug, Clone, Copy, Default)]
pub struct ToposServer;

impl ToposServer {
    /// Create the server.
    pub fn new() -> (s: Self) {
        ToposServer
    }
}

// ============================================================================
// Filtering anchors
// ============================================================================

/// An anchor of kind `k` passes a kind filter `f` (lower-cased): `concept`,
/// `behavior` and `field` ask for that kind; any other word lets all pass.
pub open spec fn kind_passes(f: Seq<char>, k: AnchorKind) -> bool {
    if f == "concept"@ {
        k == AnchorKind::Concept
    } else if f == "behavior"@ {
        k == AnchorKind::Behavior
    } else if f == "field"@ {
        k == AnchorKind::Field
    } else {
        true
    }
}

/// An anchor passes all the filters given: its kind, a concept name that
/// contains the concept filter, a requirement (or implemented one) that
/// contains the requirement filter, a behavior name that contains the
/// behavior filter.
pub open spec fn anchor_passes(
    a: Anchor,
    kind: Option<Seq<char>>,
    concept: Option<Seq<char>>,
    req: Option<Seq<char>>,
    behavior: Option<Seq<char>>,
) -> bool {
    &&& (kind matches Some(k) ==> kind_passes(lowercased(k), a.kind))
    &&& (concept matches Some(c) ==> (anchor_attr(a, "concept"@) matches Some(x) && seq_contains(x, c)))
    &&& (req matches Some(r) ==> ((anchor_req_id(a) matches Some(x) && seq_contains(x, r)) || (
    anchor_attr(a, "implements"@) matches Some(y) && seq_contains(y, r))))
    &&& (behavior matches Some(b) ==> (anchor_attr(a, "behavior"@) matches Some(x) && seq_contains(x, b)))
}

/// With no filter given, every anchor passes and the collection is kept
/// whole, in order.
pub proof fn no_filter_keeps_all(s: Seq<Anchor>)
    ensures
        s.filter(|a: Anchor| anchor_passes(a, None, None, None, None)) == s,
    decreases s.len(),
{
    reveal_with_fuel(Seq::<_>::filter, 1);
    if s.len() > 0 {
        no_filter_keeps_all(s.drop_last());
        assert(s.drop_last().push(s.last()) =~= s);
    }
}

/// The view of an optional text.
pub open spec fn opt_str(o: Option<&str>) -> Option<Seq<char>> {
    match o {
        Some(s) => Some(s@),
        None => None,
    }
}

/// Whether an anchor passes the filters given.
fn passes(
    a: &Anchor,
    filter_kind: Option<&str>,
    filter_concept: Option<&str>,
    filter_requirement: Option<&str>,
    filter_behavior: Option<&str>,
) -> (b: bool)
    ensures
        b == anchor_passes(
            *a,
            opt_str(filter_kind),
            opt_str(filter_concept),
            opt_str(filter_requirement),
            opt_str(filter_behavior),
        ),
{
    if let Some(kind) = filter_kind {
        let lower = to_lowercase(kind);
        let l = lower.as_str();
        let matches_kind = if str_eq(l, "concept") {
            a.kind == AnchorKind::Concept
        } else if str_eq(l, "behavior") {
            a.kind == AnchorKind::Behavior
        } else if str_eq(l, "field") {
            a.kind == AnchorKind::Field
        } else {
            true
        };
        if !matches_kind {
            return false;
        }
    }
    if let Some(concept_filter) = filter_concept {
        match a.concept_name() {
            Some(concept) => {
                if !contains(concept, concept_filter) {
                    return false;
                }
            },
            None => {
                return false;
            },
        }
    }
    if let Some(req_filter) = filter_requirement {
        let by_req = match a.req_id() {
            Some(r) => contains(r, req_filter),
            None => false,
        };
        let imps = a.implements();
        let mut by_impl = false;
        let mut i: usize = 0;
        while i < imps.len()
            invariant
                i <= imps@.len(),
                imps@.map_values(|x: &str| x@) == match anchor_attr(*a, "implements"@) {
                    Some(v) => seq![v],
                    None => Seq::empty(),
                },
                by_impl == exists|j: int| 0 <= j < i && seq_contains(imps@[j]@, req_filter@),
            decreases imps.len() - i,
        {
            if contains(imps[i], req_filter) {
                by_impl = true;
            }
            i += 1;
        }
        proof {
            match anchor_attr(*a, "implements"@) {
                Some(v) => {
                    assert(imps@.map_values(|x: &str| x@)[0] == v);
                    assert(imps@[0]@ == v);
                },
                None => {},
            }
        }
        if !(by_req || by_impl) {
            return false;
        }
    }
    if let Some(behavior_filter) = filter_behavior {
        match a.behavior_name() {
            Some(behavior) => {
                if !contains(behavior, behavior_filter) {
                    return false;
                }
            },
            None => {
                return false;
            },
        }
    }
    true
}

impl ToposServer {
    /// Keep the anchors that pass all the filters given, in order.
    pub fn filter_anchors(
        &self,
        collection: AnchorCollection,
        filter_kind: Option<&str>,
        filter_concept: Option<&str>,
        filter_requirement: Option<&str>,
        filter_behavior: Option<&str>,
    ) -> (r: AnchorCollection)
        ensures
            r@ == collection@.filter(
                |a: Anchor|
                    anchor_passes(
                        a,
                        opt_str(filter_kind),
                        opt_str(filter_concept),
                        opt_str(filter_requirement),
                        opt_str(filter_behavior),
                    ),
            ),
            r.well_formed(),
    {
        let ghost p = |a: Anchor|
            anchor_passes(
                a,
                opt_str(filter_kind),
                opt_str(filter_concept),
                opt_str(filter_requirement),
                opt_str(filter_behavior),
            );
        let ghost all = collection@;
        let mut rest = collection.into_anchors();
        let n = rest.len();
        let mut kept: Vec<Anchor> = Vec::new();
        let mut k: usize = 0;
        assert(all.skip(0) =~= rest@);
        assert(all.take(0).filter(p) =~= kept@);
        while rest.len() > 0
            invariant
                k <= all.len(),
                all.len() == n,
                rest@ == all.skip(k as int),
                kept@ == all.take(k as int).filter(p),
                p == (|a: Anchor|
                    anchor_passes(
                        a,
                        opt_str(filter_kind),
                        opt_str(filter_concept),
                        opt_str(filter_requirement),
                        opt_str(filter_behavior),
                    )),
            decreases rest.len(),
        {
            proof {
                crate::text::lemma_filter_take_push(all, p, k as int);
            }
            let a = rest.remove(0);
            assert(a == all[k as int]);
            if passes(&a, filter_kind, filter_concept, filter_requirement, filter_behavior) {
                kept.push(a);
            }
            assert(rest@ =~= all.skip(k + 1));
            k = k + 1;
        }
        assert(all.take(k as int) =~= all);
        AnchorCollection::from_anchors(kept)
    }
}

// ============================================================================
// The tools
// ============================================================================

/// The tools the server offers.
#[derive(Debug, Clone, Copy, PartialEq, Eq, Structural)]
pub enum ToolName {
    ValidateSpec,
    SummarizeSpec,
    CompileContext,
    SuggestHole,
    ExtractSpec,
}

/// The name a tool is called by.
pub open spec fn tool_name_text(t: ToolName) -> Seq<char> {
    match t {
        ToolName::ValidateSpec => "validate_spec"@,
        ToolName::SummarizeSpec => "summarize_spec"@,
        ToolName::CompileContext => "compile_context"@,
        ToolName::SuggestHole => "suggest_hole"@,
        ToolName::ExtractSpec => "extract_spec"@,
    }
}

/// The tool a call names, if any.
pub fn tool_by_name(name: &str) -> (r: Option<ToolName>)
    ensures
        match r {
            Some(t) => tool_name_text(t) == name@,
            None => forall|t: ToolName| tool_name_text(t) != name@,
        },
{
    if str_eq(name, "validate_spec") {
        Some(ToolName::ValidateSpec)
    } else if str_eq(name, "summarize_spec") {
        Some(ToolName::SummarizeSpec)
    } else if str_eq(name, "compile_context") {
        Some(ToolName::CompileContext)
    } else if str_eq(name, "suggest_hole") {
        Some(ToolName::SuggestHole)
    } else if str_eq(name, "extract_spec") {
        Some(ToolName::ExtractSpec)
    } else {
        proof {
            assert forall|t: ToolName| tool_name_text(t) != name@ by {
                match t {
                    ToolName::ValidateSpec => {},
                    ToolName::SummarizeSpec => {},
                    ToolName::CompileContext => {},
                    ToolName::SuggestHole => {},
                    ToolName::ExtractSpec => {},
                }
            }
        }
        None
    }
}

/// What the server answers a call of a tool it does not offer.
pub fn unknown_tool_message(name: &str) -> (m: String)
    ensures
        m@ == "Unknown tool: "@ + name@,
{
    let mut m = String::new();
    push_str(&mut m, "Unknown tool: ");
    push_str(&mut m, name);
    m
}

/// A tool's description for clients: its name, what it does, and the JSON
/// schema of its arguments, as JSON text.
#[derive(Debug)]
pub struct ToolDefinition {
    pub name: String,
    pub description: String,
    pub input_schema: String,
}

/// The tools in the order they are listed, each with its description and
/// the JSON schema of its arguments.
pub open spec fn tool_table() -> Seq<(Seq<char>, Seq<char>, Seq<char>)> {
    seq![
        (
            "validate_spec"@,
            "Validate a Topos specification file (.tps) and return any syntax or semantic errors"@,
            "{\"type\":\"object\",\"properties\":{\"path\":{\"type\":\"string\",\"description\":\"Path to the Topos specification file (.tps)\"}},\"required\":[\"path\"]}"@,
        ),
        (
            "summarize_spec"@,
            "Get a structured summary of a Topos specification including requirements, concepts, tasks, and traceability"@,
            "{\"type\":\"object\",\"properties\":{\"path\":{\"type\":\"string\",\"description\":\"Path to the Topos specification file (.tps)\"}},\"required\":[\"path\"]}"@,
        ),
        (
            "compile_context"@,
            "Compile AI-focused context for a specific task, including linked requirements and related concepts"@,
            "{\"type\":\"object\",\"properties\":{\"path\":{\"type\":\"string\",\"description\":\"Path to the Topos specification file (.tps)\"},\"task_id\":{\"type\":\"string\",\"description\":\"Task ID (e.g., TASK-AUTH-1)\"},\"format\":{\"type\":\"string\",\"description\":\"Output format: markdown, json, cursor, windsurf, or cline\",\"default\":\"markdown\"}},\"required\":[\"path\",\"task_id\"]}"@,
        ),
        (
            "suggest_hole"@,
            "Get LLM-powered suggestions for filling a typed hole ([?]) in a Topos specification. Uses a language model for intelligent suggestions based on context, with fallback to heuristics."@,
            "{\"type\":\"object\",\"properties\":{\"path\":{\"type\":\"string\",\"description\":\"Path to the Topos specification file (.tps)\"},\"line\":{\"type\":\"integer\",\"description\":\"Line number (0-indexed) where the hole is located\"},\"column\":{\"type\":\"integer\",\"description\":\"Column number (0-indexed) where the hole is located\"},\"offset\":{\"type\":\"integer\",\"description\":\"Byte offset of the hole in the file (alternative to line/column)\"},\"use_llm\":{\"type\":\"boolean\",\"description\":\"Whether to use LLM for suggestions (default: true). Set to false for faster heuristic-only suggestions.\",\"default\":true}},\"required\":[\"path\"]}"@,
        ),
        (
            "extract_spec"@,
            "Extract a Topos specification from Rust source files using @topos() annotations. Supports filtering by kind/concept/requirement/behavior and validation against existing spec."@,
            "{\"type\":\"object\",\"properties\":{\"paths\":{\"oneOf\":[{\"type\":\"string\"},{\"type\":\"array\",\"items\":{\"type\":\"string\"}}],\"description\":\"Path(s) to Rust files or directories. Supports glob patterns (e.g., 'src/**/*.rs')\"},\"spec_name\":{\"type\":\"string\",\"description\":\"Name for the generated specification\",\"default\":\"ExtractedSpec\"},\"filter_kind\":{\"type\":\"string\",\"enum\":[\"concept\",\"behavior\",\"field\"],\"description\":\"Filter anchors by kind (concept, behavior, or field)\"},\"filter_concept\":{\"type\":\"string\",\"description\":\"Filter to anchors matching this concept name (substring match)\"},\"filter_requirement\":{\"type\":\"string\",\"description\":\"Filter to anchors referencing this requirement (e.g., 'REQ-AUTH')\"},\"filter_behavior\":{\"type\":\"string\",\"description\":\"Filter to anchors matching this behavior name (substring match)\"},\"compare_spec\":{\"type\":\"string\",\"description\":\"Path to existing Topos spec file to compare against. Shows validation results and identifies new/changed elements.\"},\"validate\":{\"type\":\"boolean\",\"description\":\"Enable validation mode (requires compare_spec). Reports invalid anchors and orphan spec elements.\",\"default\":false}},\"required\":[\"paths\"]}"@,
        ),
    ]
}

/// A tool definition.
pub fn make_tool(name: &str, description: &str, schema: &str) -> (t: ToolDefinition)
    ensures
        t.name@ == name@,
        t.description@ == description@,
        t.input_schema@ == schema@,
{
    ToolDefinition { name: name.to_owned(), description: description.to_owned(), input_schema: schema.to_owned() }
}

/// List the tools the server offers.
pub fn list_tools() -> (tools: Vec<ToolDefinition>)
    ensures
        tools@.map_values(|t: ToolDefinition| (t.name@, t.description@, t.input_schema@)) == tool_table(),
{
    let mut tools: Vec<ToolDefinition> = Vec::new();
    tools.push(make_tool(
        "validate_spec",
        "Validate a Topos specification file (.tps) and return any syntax or semantic errors",
        "{\"type\":\"object\",\"properties\":{\"path\":{\"type\":\"string\",\"description\":\"Path to the Topos specification file (.tps)\"}},\"required\":[\"path\"]}",
    ));
    tools.push(make_tool(
        "summarize_spec",
        "Get a structured summary of a Topos specification including requirements, concepts, tasks, and traceability",
        "{\"type\":\"object\",\"properties\":{\"path\":{\"type\":\"string\",\"description\":\"Path to the Topos specification file (.tps)\"}},\"required\":[\"path\"]}",
    ));
    tools.push(make_tool(
        "compile_context",
        "Compile AI-focused context for a specific task, including linked requirements and related concepts",
        "{\"type\":\"object\",\"properties\":{\"path\":{\"type\":\"string\",\"description\":\"Path to the Topos specification file (.tps)\"},\"task_id\":{\"type\":\"string\",\"description\":\"Task ID (e.g., TASK-AUTH-1)\"},\"format\":{\"type\":\"string\",\"description\":\"Output format: markdown, json, cursor, windsurf, or cline\",\"default\":\"markdown\"}},\"required\":[\"path\",\"task_id\"]}",
    ));
    tools.push(make_tool(
        "suggest_hole",
        "Get LLM-powered suggestions for filling a typed hole ([?]) in a Topos specification. Uses a language model for intelligent suggestions based on context, with fallback to heuristics.",
        "{\"type\":\"object\",\"properties\":{\"path\":{\"type\":\"string\",\"description\":\"Path to the Topos specification file (.tps)\"},\"line\":{\"type\":\"integer\",\"description\":\"Line number (0-indexed) where the hole is located\"},\"column\":{\"type\":\"integer\",\"description\":\"Column number (0-indexed) where the hole is located\"},\"offset\":{\"type\":\"integer\",\"description\":\"Byte offset of the hole in the file (alternative to line/column)\"},\"use_llm\":{\"type\":\"boolean\",\"description\":\"Whether to use LLM for suggestions (default: true). Set to false for faster heuristic-only suggestions.\",\"default\":true}},\"required\":[\"path\"]}",
    ));
    tools.push(make_tool(
        "extract_spec",
        "Extract a Topos specification from Rust source files using @topos() annotations. Supports filtering by kind/concept/requirement/behavior and validation against existing spec.",
        "{\"type\":\"object\",\"properties\":{\"paths\":{\"oneOf\":[{\"type\":\"string\"},{\"type\":\"array\",\"items\":{\"type\":\"string\"}}],\"description\":\"Path(s) to Rust files or directories. Supports glob patterns (e.g., 'src/**/*.rs')\"},\"spec_name\":{\"type\":\"string\",\"description\":\"Name for the generated specification\",\"default\":\"ExtractedSpec\"},\"filter_kind\":{\"type\":\"string\",\"enum\":[\"concept\",\"behavior\",\"field\"],\"description\":\"Filter anchors by kind (concept, behavior, or field)\"},\"filter_concept\":{\"type\":\"string\",\"description\":\"Filter to anchors matching this concept name (substring match)\"},\"filter_requirement\":{\"type\":\"string\",\"description\":\"Filter to anchors referencing this requirement (e.g., 'REQ-AUTH')\"},\"filter_behavior\":{\"type\":\"string\",\"description\":\"Filter to anchors matching this behavior name (substring match)\"},\"compare_spec\":{\"type\":\"string\",\"description\":\"Path to existing Topos spec file to compare against. Shows validation results and identifies new/changed elements.\"},\"validate\":{\"type\":\"boolean\",\"description\":\"Enable validation mode (requires compare_spec). Reports invalid anchors and orphan spec elements.\",\"default\":false}},\"required\":[\"paths\"]}",
    ));
    assert(tools@.map_values(|t: ToolDefinition| (t.name@, t.description@, t.input_schema@)) =~= tool_table());
    tools
}

/// The output format a `format` argument names; Markdown for any other word.
pub open spec fn format_named(s: Seq<char>) -> OutputFormat {
    if s == "json"@ {
        OutputFormat::Json
    } else if s == "cursor"@ {
        OutputFormat::Cursor
    } else if s == "windsurf"@ {
        OutputFormat::Windsurf
    } else if s == "cline"@ {
        OutputFormat::Cline
    } else {
        OutputFormat::Markdown
    }
}

/// The output format a `format` argument names.
pub fn output_format_from_name(s: &str) -> (f: OutputFormat)
    ensures
        f == format_named(s@),
{
    if str_eq(s, "json") {
        OutputFormat::Json
    } else if str_eq(s, "cursor") {
        OutputFormat::Cursor
    } else if str_eq(s, "windsurf") {
        OutputFormat::Windsurf
    } else if str_eq(s, "cline") {
        OutputFormat::Cline
    } else {
        OutputFormat::Markdown
    }
}

// ============================================================================
// validate_spec
// ============================================================================

/// The word a severity is reported by.
pub open spec fn severity_word(s: LegacySeverity) -> Seq<char> {
    match s {
        LegacySeverity::Error => "ERROR"@,
        LegacySeverity::Warning => "WARNING"@,
        LegacySeverity::Info => "INFO"@,
    }
}

/// The line that reports a diagnostic: its severity, its 1-indexed line and
/// its message.
pub open spec fn issue_line(d: DiagnosticView) -> Seq<char> {
    "- ["@ + severity_word(d.severity) + "] Line "@ + decimal(d.line as nat + 1) + ": "@ + d.message
        + "\n"@
}

/// What `validate_spec` answers for a file's diagnostics.
pub open spec fn validation_report_text(path: Seq<char>, ds: Seq<DiagnosticView>) -> Seq<char> {
    if ds.len() == 0 {
        "No errors found in "@ + path
    } else {
        "Found "@ + decimal(ds.len()) + " issue(s) in "@ + path + ":\n\n"@ + concat_map(
            ds,
            |d: DiagnosticView| issue_line(d),
        )
    }
}

/// Report a file's diagnostics: none found, or one line per diagnostic.
pub fn validation_report(path: &str, diagnostics: &Vec<Diagnostic>) -> (out: String)
    ensures
        out@ == validation_report_text(path@, crate::legacy::diagnostic_views(diagnostics@)),
{
    let ghost ds = crate::legacy::diagnostic_views(diagnostics@);
    let mut out = String::new();
    if diagnostics.len() == 0 {
        push_str(&mut out, "No errors found in ");
        push_str(&mut out, path);
        return out;
    }
    push_str(&mut out, "Found ");
    push_decimal(&mut out, diagnostics.len() as u64);
    push_str(&mut out, " issue(s) in ");
    push_str(&mut out, path);
    push_str(&mut out, ":\n\n");
    let ghost head = out@;
    let mut i: usize = 0;
    while i < diagnostics.len()
        invariant
            i <= diagnostics@.len(),
            ds == crate::legacy::diagnostic_views(diagnostics@),
            out@ == head + concat_map(ds.take(i as int), |d: DiagnosticView| issue_line(d)),
        decreases diagnostics.len() - i,
    {
        proof {
            lemma_concat_map_push(ds, |d: DiagnosticView| issue_line(d), i as int);
        }
        let d = &diagnostics[i];
        assert(ds[i as int] == d@);
        push_str(&mut out, "- [");
        push_str(
            &mut out,
            match d.severity {
                LegacySeverity::Error => "ERROR",
                LegacySeverity::Warning => "WARNING",
                LegacySeverity::Info => "INFO",
            },
        );
        push_str(&mut out, "] Line ");
        push_decimal(&mut out, d.line as u64 + 1);
        push_str(&mut out, ": ");
        push_str(&mut out, d.message.as_str());
        push_str(&mut out, "\n");
        i += 1;
    }
    assert(ds.take(ds.len() as int) =~= ds);
    out
}

// ============================================================================
// summarize_spec
// ============================================================================

/// The requirements among `ids` that no task is linked to, in order.
pub open spec fn untasked_of(ids: Seq<Seq<char>>, g: TraceabilityGraph) -> Seq<Seq<char>>
    decreases ids.len(),
{
    if ids.len() == 0 {
        Seq::empty()
    } else if set_items(g.req_to_tasks, ids.last()).len() == 0 {
        untasked_of(ids.drop_last(), g).push(ids.last())
    } else {
        untasked_of(ids.drop_last(), g)
    }
}

/// The summary line of a requirement.
pub open spec fn requirement_line(id: Seq<char>, g: TraceabilityGraph) -> Seq<char> {
    "- **"@ + id + "**"@ + (if set_items(g.req_to_tasks, id).len() == 0 {
        " (no tasks)"@
    } else {
        Seq::empty()
    }) + "\n"@
}

/// The summary line of a task.
pub open spec fn task_line(id: Seq<char>, g: TraceabilityGraph) -> Seq<char> {
    let reqs = set_items(g.task_to_reqs, id);
    if reqs.len() == 0 {
        "- **"@ + id + "** (no linked requirements)\n"@
    } else {
        "- **"@ + id + "** → "@ + join(reqs, ", "@) + "\n"@
    }
}

/// The summary line of a concept.
pub open spec fn concept_line(name: Seq<char>) -> Seq<char> {
    "- "@ + name + "\n"@
}

/// The summary line of a key: a requirement, a concept or a task.
pub open spec fn summary_item(which: u8, k: Seq<char>, g: TraceabilityGraph) -> Seq<char> {
    if which == 0 {
        requirement_line(k, g)
    } else if which == 1 {
        concept_line(k)
    } else {
        task_line(k, g)
    }
}

/// A section of the summary: its heading, then the lines of its items and
/// a blank line, or a note that there are none.
pub open spec fn summary_section(heading: Seq<char>, none: Seq<char>, lines: Seq<char>, count: nat) -> Seq<char> {
    heading + if count == 0 {
        none
    } else {
        lines + "\n"@
    }
}

/// What `summarize_spec` answers: the requirements, concepts and tasks of
/// the specification in table order, then traceability counts.
pub open spec fn summary_text(path: Seq<char>, t: SymbolTable, g: TraceabilityGraph) -> Seq<char> {
    "# Specification Summary: "@ + path + "\n\n"@ + summary_section(
        "## Requirements\n\n"@,
        "No requirements defined.\n\n"@,
        concat_map(t.requirements.key_seq(), |k: Seq<char>| summary_item(0u8, k, g)),
        t.requirements.key_seq().len(),
    ) + summary_section(
        "## Concepts\n\n"@,
        "No concepts defined.\n\n"@,
        concat_map(t.concepts.key_seq(), |k: Seq<char>| summary_item(1u8, k, g)),
        t.concepts.key_seq().len(),
    ) + summary_section(
        "## Tasks\n\n"@,
        "No tasks defined.\n\n"@,
        concat_map(t.tasks.key_seq(), |k: Seq<char>| summary_item(2u8, k, g)),
        t.tasks.key_seq().len(),
    ) + traceability_text(t, g)
}

/// The summary line of a key.
fn summary_line(which: u8, k: &str, g: &TraceabilityGraph) -> (r: String)
    requires
        which < 3,
    ensures
        r@ == summary_item(which, k@, *g),
{
    let mut out = String::new();
    if which == 0 {
        push_str(&mut out, "- **");
        push_str(&mut out, k);
        push_str(&mut out, "**");
        let tasks = g.tasks_for_req(k);
        if tasks.len() == 0 {
            push_str(&mut out, " (no tasks)");
        }
        push_str(&mut out, "\n");
    } else if which == 1 {
        push_str(&mut out, "- ");
        push_str(&mut out, k);
        push_str(&mut out, "\n");
    } else {
        let reqs = g.reqs_for_task(k);
        push_str(&mut out, "- **");
        push_str(&mut out, k);
        if reqs.len() == 0 {
            push_str(&mut out, "** (no linked requirements)\n");
        } else {
            push_str(&mut out, "** → ");
            let j = joined(&reqs, ", ");
            push_str(&mut out, j.as_str());
            push_str(&mut out, "\n");
        }
    }
    out
}

/// The lines of the keys of `m`, one line per key.
fn push_summary_lines(out: &mut String, m: &StrMap<Symbol>, which: u8, g: &TraceabilityGraph)
    requires
        which < 3,
    ensures
        final(out)@ == old(out)@ + concat_map(m.key_seq(), |k: Seq<char>| summary_item(which, k, *g)),
{
    let ghost keys = m.key_seq();
    let ghost head = out@;
    let n = m.len();
    let mut i: usize = 0;
    while i < n
        invariant
            i <= n,
            n == m.entry_seq().len(),
            keys == m.key_seq(),
            which < 3,
            out@ == head + concat_map(keys.take(i as int), |k: Seq<char>| summary_item(which, k, *g)),
        decreases n - i,
    {
        proof {
            lemma_concat_map_push(keys, |k: Seq<char>| summary_item(which, k, *g), i as int);
        }
        let k = m.key_at(i);
        assert(keys[i as int] == k@);
        let line = summary_line(which, k.as_str(), g);
        push_str(out, line.as_str());
        i += 1;
    }
    assert(keys.take(n as int) =~= keys);
}

/// A section of the summary.
fn push_summary_section(
    out: &mut String,
    heading: &str,
    none: &str,
    m: &StrMap<Symbol>,
    which: u8,
    g: &TraceabilityGraph,
)
    requires
        which < 3,
    ensures
        final(out)@ == old(out)@ + summary_section(
            heading@,
            none@,
            concat_map(m.key_seq(), |k: Seq<char>| summary_item(which, k, *g)),
            m.key_seq().len(),
        ),
{
    push_str(out, heading);
    if m.len() == 0 {
        push_str(out, none);
    } else {
        push_summary_lines(out, m, which, g);
        push_str(out, "\n");
    }
}

/// The requirements that no task is linked to, in table order.
fn untasked_requirements_of(m: &StrMap<Symbol>, g: &TraceabilityGraph) -> (r: Vec<String>)
    ensures
        views(r@) == untasked_of(m.key_seq(), *g),
{
    let ghost keys = m.key_seq();
    let n = m.len();
    let mut r: Vec<String> = Vec::new();
    let mut i: usize = 0;
    assert(views(r@) =~= untasked_of(keys.take(0), *g));
    while i < n
        invariant
            i <= n,
            n == m.entry_seq().len(),
            keys == m.key_seq(),
            views(r@) == untasked_of(keys.take(i as int), *g),
        decreases n - i,
    {
        proof {
            assert(keys.take(i + 1).drop_last() =~= keys.take(i as int));
            assert(keys.take(i + 1).last() == keys[i as int]);
        }
        let k = m.key_at(i);
        assert(keys[i as int] == k@);
        let tasks = g.tasks_for_req(k.as_str());
        if tasks.len() == 0 {
            let ghost r0 = r@;
            r.push(k.clone());
            assert(views(r@) =~= views(r0).push(k@));
        }
        i += 1;
    }
    assert(keys.take(n as int) =~= keys);
    r
}

/// The traceability part of the summary.
pub open spec fn traceability_text(t: SymbolTable, g: TraceabilityGraph) -> Seq<char> {
    let untasked = untasked_of(t.requirements.key_seq(), g);
    "## Traceability\n\n"@ + "- **Requirements**: "@ + decimal(t.requirements.key_seq().len())
        + " total\n"@ + "- **Without tasks**: "@ + decimal(untasked.len()) + " ("@ + (if untasked.len()
        == 0 {
        "all covered"@
    } else {
        join(untasked, ", "@)
    }) + ")\n"@ + "- **Tasks**: "@ + decimal(t.tasks.key_seq().len()) + "\n"@ + "- **Concepts**: "@
        + decimal(t.concepts.key_seq().len()) + "\n"@ + "- **Behaviors**: "@ + decimal(
        t.behaviors.key_seq().len(),
    ) + "\n"@
}

/// Append the traceability part of the summary.
#[verifier::rlimit(80)]
fn push_traceability(out: &mut String, symbols: &SymbolTable, trace: &TraceabilityGraph)
    ensures
        final(out)@ == old(out)@ + traceability_text(*symbols, *trace),
{
    let ghost start = out@;
    let untasked = untasked_requirements_of(&symbols.requirements, trace);
    assert(symbols.requirements.key_seq().len() == symbols.requirements.entry_seq().len());
    assert(symbols.concepts.key_seq().len() == symbols.concepts.entry_seq().len());
    assert(symbols.tasks.key_seq().len() == symbols.tasks.entry_seq().len());
    assert(symbols.behaviors.key_seq().len() == symbols.behaviors.entry_seq().len());
    let ghost u = untasked_of(symbols.requirements.key_seq(), *trace);
    let ghost tail = if u.len() == 0 {
        "all covered"@
    } else {
        join(u, ", "@)
    };
    push_str(out, "## Traceability\n\n");
    push_str(out, "- **Requirements**: ");
    push_decimal(out, symbols.requirements.len() as u64);
    push_str(out, " total\n");
    push_str(out, "- **Without tasks**: ");
    push_decimal(out, untasked.len() as u64);
    push_str(out, " (");
    if untasked.len() == 0 {
        push_str(out, "all covered");
    } else {
        let j = joined(&untasked, ", ");
        push_str(out, j.as_str());
    }
    push_str(out, ")\n");
    let ghost mid = out@;
    assert(mid =~= start + "## Traceability\n\n"@ + "- **Requirements**: "@ + decimal(
        symbols.requirements.key_seq().len(),
    ) + " total\n"@ + "- **Without tasks**: "@ + decimal(u.len()) + " ("@ + tail + ")\n"@);
    push_str(out, "- **Tasks**: ");
    push_decimal(out, symbols.tasks.len() as u64);
    push_str(out, "\n");
    push_str(out, "- **Concepts**: ");
    push_decimal(out, symbols.concepts.len() as u64);
    push_str(out, "\n");
    push_str(out, "- **Behaviors**: ");
    push_decimal(out, symbols.behaviors.len() as u64);
    push_str(out, "\n");
    assert(out@ =~= start + traceability_text(*symbols, *trace));
}

/// Summarize a specification: its requirements (noting those without
/// tasks), concepts and tasks (with their requirements), then counts.
pub fn spec_summary(path: &str, symbols: &SymbolTable, trace: &TraceabilityGraph) -> (out: String)
    ensures
        out@ == summary_text(path@, *symbols, *trace),
{
    let mut out = String::new();
    push_str(&mut out, "# Specification Summary: ");
    push_str(&mut out, path);
    push_str(&mut out, "\n\n");
    push_summary_section(&mut out, "## Requirements\n\n", "No requirements defined.\n\n", &symbols.requirements, 0, trace);
    push_summary_section(&mut out, "## Concepts\n\n", "No concepts defined.\n\n", &symbols.concepts, 1, trace);
    push_summary_section(&mut out, "## Tasks\n\n", "No tasks defined.\n\n", &symbols.tasks, 2, trace);
    push_traceability(&mut out, symbols, trace);
    assert(out@ =~= summary_text(path@, *symbols, *trace));
    out
}

// ============================================================================
// extract_spec
// ============================================================================

/// The head of `extract_spec`'s answer: the files read and the anchors found.
pub open spec fn extract_header(name: Seq<char>, files: Seq<Seq<char>>, s: Seq<Anchor>) -> Seq<char> {
    "# Extracted Specification: "@ + name + "\n\n"@ + "Extracted from "@ + decimal(files.len())
        + " file(s):\n"@ + concat_map(files, |f: Seq<char>| "- "@ + f + "\n"@) + "\nFound "@
        + decimal(s.len()) + " anchor(s):\n"@ + "- "@ + decimal(
        anchors_of_kind(s, AnchorKind::Concept).len(),
    ) + " concept(s)\n"@ + "- "@ + decimal(anchors_of_kind(s, AnchorKind::Behavior).len())
        + " behavior(s)\n"@ + "- "@ + decimal(anchors_of_kind(s, AnchorKind::Field).len())
        + " field(s)\n"@
}

/// Where an anchor is: its file and 1-indexed line.
pub open spec fn place(file: Seq<char>, line: usize) -> Seq<char> {
    file + ":"@ + decimal(line as nat + 1)
}

/// The line that reports an invalid anchor.
pub open spec fn invalid_line(i: (Seq<char>, usize, AnchorKind, AnchorReferenceKind, Seq<char>)) -> Seq<char> {
    "- `"@ + anchor_kind_label(i.2) + "` at "@ + place(i.0, i.1) + " - references undefined '"@ + i.4
        + "'\n"@
}

/// The line that reports an orphan spec element.
pub open spec fn orphan_line(o: (AnchorReferenceKind, Seq<char>)) -> Seq<char> {
    "- "@ + reference_kind_label(o.0) + " `"@ + o.1 + "`\n"@
}

/// The concept anchors of `s` whose concept is not in the specification.
pub open spec fn new_concepts(s: Seq<Anchor>, t: TableModel) -> Seq<Anchor>
    decreases s.len(),
{
    if s.len() == 0 {
        Seq::empty()
    } else {
        let a = s.last();
        if a.kind == AnchorKind::Concept && (anchor_attr(a, "concept"@) matches Some(c)
            && !t.concepts.contains_key(c)) {
            new_concepts(s.drop_last(), t).push(a)
        } else {
            new_concepts(s.drop_last(), t)
        }
    }
}

/// The behavior anchors of `s` whose behavior is not in the specification.
pub open spec fn new_behaviors(s: Seq<Anchor>, t: TableModel) -> Seq<Anchor>
    decreases s.len(),
{
    if s.len() == 0 {
        Seq::empty()
    } else {
        let a = s.last();
        if a.kind == AnchorKind::Behavior && (anchor_attr(a, "behavior"@) matches Some(b)
            && !t.behaviors.contains_key(b)) {
            new_behaviors(s.drop_last(), t).push(a)
        } else {
            new_behaviors(s.drop_last(), t)
        }
    }
}

/// The line that reports an element new to the specification.
pub open spec fn new_line(what: Seq<char>, a: Anchor, key: Seq<char>) -> Seq<char> {
    "- "@ + what + " `"@ + anchor_attr(a, key)->0 + "` at "@ + place(a.file_path@, a.line) + "\n"@
}

/// The invalid-anchor part of the validation.
pub open spec fn invalid_section(invalid: Seq<(Seq<char>, usize, AnchorKind, AnchorReferenceKind, Seq<char>)>) -> Seq<char> {
    if invalid.len() > 0 {
        "### ❌ Invalid Anchors ("@ + decimal(invalid.len()) + " found)\n\n"@
            + "These anchors reference spec elements that don't exist:\n\n"@ + concat_map(
            invalid,
            |i: (Seq<char>, usize, AnchorKind, AnchorReferenceKind, Seq<char>)| invalid_line(i),
        ) + "\n"@
    } else {
        Seq::empty()
    }
}

/// The orphan part of the validation.
pub open spec fn orphan_section(orphans: Seq<(AnchorReferenceKind, Seq<char>)>) -> Seq<char> {
    if orphans.len() > 0 {
        "### ⚠️ Orphan Spec Elements ("@ + decimal(orphans.len()) + " found)\n\n"@
            + "These spec elements have no code anchor:\n\n"@ + concat_map(
            orphans,
            |o: (AnchorReferenceKind, Seq<char>)| orphan_line(o),
        ) + "\n"@
    } else {
        Seq::empty()
    }
}

/// The valid-anchor part of the validation.
pub open spec fn valid_section(n: nat) -> Seq<char> {
    if n > 0 {
        "### ✅ Valid Anchors ("@ + decimal(n) + " found)\n\n"@
    } else {
        Seq::empty()
    }
}

/// The part of the validation that lists elements new to the spec.
pub open spec fn new_section(nc: Seq<Anchor>, nb: Seq<Anchor>) -> Seq<char> {
    if nc.len() > 0 || nb.len() > 0 {
        "### 🆕 New Elements (not in spec)\n\n"@ + "These anchors define elements not yet in the spec:\n\n"@
            + concat_map(nc, |a: Anchor| new_line("Concept"@, a, "concept"@)) + concat_map(
            nb,
            |a: Anchor| new_line("Behavior"@, a, "behavior"@),
        ) + "\n"@
    } else {
        Seq::empty()
    }
}

/// The validation part of `extract_spec`'s answer: invalid anchors, orphan
/// elements, the number of valid anchors, and elements new to the spec.
pub open spec fn validation_text(s: Seq<Anchor>, t: TableModel, sc: Seq<Seq<char>>, sb: Seq<Seq<char>>, srq: Seq<Seq<char>>) -> Seq<char> {
    "\n## Validation Results\n\n"@ + invalid_section(invalid_of(t, s)) + orphan_section(
        orphans_of(s, AnchorReferenceKind::Requirement, srq) + orphans_of(
            s,
            AnchorReferenceKind::Concept,
            sc,
        ) + orphans_of(s, AnchorReferenceKind::Behavior, sb),
    ) + valid_section(valid_of(t, s).len()) + new_section(new_concepts(s, t), new_behaviors(s, t))
}

/// What `extract_spec` answers: the header, then, when a specification was
/// given to compare with, the validation (or why it could not be read),
/// then the generated specification.
pub open spec fn extract_report_text(
    name: Seq<char>,
    files: Seq<Seq<char>>,
    s: Seq<Anchor>,
    comparison: Option<Result<SymbolTable, Seq<char>>>,
) -> Seq<char> {
    extract_header(name, files, s) + match comparison {
        Some(Ok(t)) => validation_text(
            s,
            t@,
            t.concepts.key_seq(),
            t.behaviors.key_seq(),
            t.requirements.key_seq(),
        ),
        Some(Err(e)) => "\n⚠️ Could not read comparison spec: "@ + e + "\n\n"@,
        None => Seq::empty(),
    } + "\n---\n\n"@ + generated_spec(s, name)
}

/// Append `- f` lines, one per file.
fn push_file_lines(out: &mut String, files: &Vec<String>)
    ensures
        final(out)@ == old(out)@ + concat_map(views(files@), |f: Seq<char>| "- "@ + f + "\n"@),
{
    let ghost fs = views(files@);
    let ghost head = out@;
    let mut i: usize = 0;
    while i < files.len()
        invariant
            i <= files@.len(),
            fs == views(files@),
            out@ == head + concat_map(fs.take(i as int), |f: Seq<char>| "- "@ + f + "\n"@),
        decreases files.len() - i,
    {
        proof {
            lemma_concat_map_push(fs, |f: Seq<char>| "- "@ + f + "\n"@, i as int);
        }
        push_str(out, "- ");
        push_str(out, files[i].as_str());
        push_str(out, "\n");
        i += 1;
    }
    assert(fs.take(fs.len() as int) =~= fs);
}

/// Append the head of `extract_spec`'s answer.
#[verifier::rlimit(40)]
fn push_extract_header(out: &mut String, spec_name: &str, files: &Vec<String>, collection: &AnchorCollection)
    ensures
        final(out)@ == old(out)@ + extract_header(spec_name@, views(files@), collection@),
{
    let ghost start = out@;
    push_str(out, "# Extracted Specification: ");
    push_str(out, spec_name);
    push_str(out, "\n\n");
    push_str(out, "Extracted from ");
    push_decimal(out, files.len() as u64);
    push_str(out, " file(s):\n");
    push_file_lines(out, files);
    push_str(out, "\nFound ");
    push_decimal(out, collection.len() as u64);
    push_str(out, " anchor(s):\n");
    let concepts = collection.concepts();
    let behaviors = collection.behaviors();
    let fields = collection.fields();
    push_str(out, "- ");
    push_decimal(out, concepts.len() as u64);
    push_str(out, " concept(s)\n");
    push_str(out, "- ");
    push_decimal(out, behaviors.len() as u64);
    push_str(out, " behavior(s)\n");
    push_str(out, "- ");
    push_decimal(out, fields.len() as u64);
    push_str(out, " field(s)\n");
    assert(out@ =~= start + extract_header(spec_name@, views(files@), collection@));
}

/// The line that reports an invalid anchor.
fn invalid_line_of(i: &InvalidAnchor) -> (r: String)
    ensures
        r@ == invalid_line(invalid_view(*i)),
{
    let mut out = String::new();
    push_str(&mut out, "- `");
    push_str(&mut out, i.anchor.kind_str());
    push_str(&mut out, "` at ");
    push_str(&mut out, i.anchor.file_path.as_str());
    push_str(&mut out, ":");
    push_decimal_succ(&mut out, i.anchor.line as u64);
    push_str(&mut out, " - references undefined '");
    push_str(&mut out, i.unresolved_reference.as_str());
    push_str(&mut out, "'\n");
    out
}

/// Append the invalid-anchor lines.
fn push_invalid_lines(out: &mut String, invalid: &Vec<InvalidAnchor>)
    requires
        forall|j: int| 0 <= j < invalid@.len() ==> #[trigger] invalid@[j].suggestions@.len() == 0,
    ensures
        final(out)@ == old(out)@ + concat_map(
            invalid@.map_values(|i: InvalidAnchor| invalid_view(i)),
            |i: (Seq<char>, usize, AnchorKind, AnchorReferenceKind, Seq<char>)| invalid_line(i),
        ),
{
    let ghost vs = invalid@.map_values(|i: InvalidAnchor| invalid_view(i));
    let ghost head = out@;
    let mut k: usize = 0;
    while k < invalid.len()
        invariant
            k <= invalid@.len(),
            vs == invalid@.map_values(|i: InvalidAnchor| invalid_view(i)),
            forall|j: int| 0 <= j < invalid@.len() ==> #[trigger] invalid@[j].suggestions@.len() == 0,
            out@ == head + concat_map(
                vs.take(k as int),
                |i: (Seq<char>, usize, AnchorKind, AnchorReferenceKind, Seq<char>)| invalid_line(i),
            ),
        decreases invalid.len() - k,
    {
        proof {
            lemma_concat_map_push(
                vs,
                |i: (Seq<char>, usize, AnchorKind, AnchorReferenceKind, Seq<char>)| invalid_line(i),
                k as int,
            );
        }
        let line = invalid_line_of(&invalid[k]);
        push_str(out, line.as_str());
        if invalid[k].suggestions.len() > 0 {
            push_str(out, "  Did you mean: ");
            let j = joined(&invalid[k].suggestions, ", ");
            push_str(out, j.as_str());
            push_str(out, "?\n");
        }
        k += 1;
    }
    assert(vs.take(vs.len() as int) =~= vs);
}

/// Append the orphan lines.
fn push_orphan_lines(out: &mut String, orphans: &Vec<OrphanSpecElement>)
    ensures
        final(out)@ == old(out)@ + concat_map(
            orphans@.map_values(|o: OrphanSpecElement| orphan_view(o)),
            |o: (AnchorReferenceKind, Seq<char>)| orphan_line(o),
        ),
{
    let ghost vs = orphans@.map_values(|o: OrphanSpecElement| orphan_view(o));
    let ghost head = out@;
    let mut k: usize = 0;
    while k < orphans.len()
        invariant
            k <= orphans@.len(),
            vs == orphans@.map_values(|o: OrphanSpecElement| orphan_view(o)),
            out@ == head + concat_map(vs.take(k as int), |o: (AnchorReferenceKind, Seq<char>)| orphan_line(o)),
        decreases orphans.len() - k,
    {
        proof {
            lemma_concat_map_push(vs, |o: (AnchorReferenceKind, Seq<char>)| orphan_line(o), k as int);
        }
        push_str(out, "- ");
        push_str(out, orphans[k].kind_str());
        push_str(out, " `");
        push_str(out, orphans[k].name.as_str());
        push_str(out, "`\n");
        k += 1;
    }
    assert(vs.take(vs.len() as int) =~= vs);
}

/// The concept (`concepts`) or behavior anchors new to the specification.
fn new_elements<'a>(collection: &'a AnchorCollection, symbols: &SymbolTable, concepts: bool) -> (r: Vec<&'a Anchor>)
    ensures
        derefs(r@) == if concepts {
            new_concepts(collection@, symbols@)
        } else {
            new_behaviors(collection@, symbols@)
        },
{
    let ghost s = collection@;
    let ghost target = if concepts { new_concepts(s, symbols@) } else { new_behaviors(s, symbols@) };
    let mut r: Vec<&Anchor> = Vec::new();
    let mut i: usize = 0;
    let n = collection.len();
    while i < n
        invariant
            i <= s.len(),
            n == s.len(),
            s == collection@,
            derefs(r@) == if concepts {
                new_concepts(s.take(i as int), symbols@)
            } else {
                new_behaviors(s.take(i as int), symbols@)
            },
        decreases n - i,
    {
        proof {
            assert(s.take(i + 1).drop_last() =~= s.take(i as int));
            assert(s.take(i + 1).last() == s[i as int]);
        }
        let a = collection.at(i);
        let keep = if concepts {
            a.kind == AnchorKind::Concept && match a.concept_name() {
                Some(c) => symbols.get_concept(c).is_none(),
                None => false,
            }
        } else {
            a.kind == AnchorKind::Behavior && match a.behavior_name() {
                Some(b) => symbols.get_behavior(b).is_none(),
                None => false,
            }
        };
        if keep {
            let ghost r0 = r@;
            r.push(a);
            assert(derefs(r@) =~= derefs(r0).push(*a));
        }
        i += 1;
    }
    assert(s.take(s.len() as int) =~= s);
    r
}

/// Append the lines of concepts new to the specification.
fn push_new_concept_lines(out: &mut String, news: &Vec<&Anchor>)
    requires
        forall|j: int| 0 <= j < news@.len() ==> (anchor_attr(*#[trigger] news@[j], "concept"@) is Some),
    ensures
        final(out)@ == old(out)@ + concat_map(derefs(news@), |a: Anchor| new_line("Concept"@, a, "concept"@)),
{
    let ghost ds = derefs(news@);
    let ghost head = out@;
    let mut k: usize = 0;
    while k < news.len()
        invariant
            k <= news@.len(),
            ds == derefs(news@),
            forall|j: int| 0 <= j < news@.len() ==> (anchor_attr(*#[trigger] news@[j], "concept"@) is Some),
            out@ == head + concat_map(ds.take(k as int), |a: Anchor| new_line("Concept"@, a, "concept"@)),
        decreases news.len() - k,
    {
        proof {
            lemma_concat_map_push(ds, |a: Anchor| new_line("Concept"@, a, "concept"@), k as int);
        }
        let a = news[k];
        assert(ds[k as int] == *a);
        push_str(out, "- ");
        push_str(out, "Concept");
        push_str(out, " `");
        match a.concept_name() {
            Some(n) => push_str(out, n),
            None => {},
        }
        push_str(out, "` at ");
        push_str(out, a.file_path.as_str());
        push_str(out, ":");
        push_decimal_succ(out, a.line as u64);
        push_str(out, "\n");
        k += 1;
    }
    assert(ds.take(ds.len() as int) =~= ds);
}

/// Append the lines of behaviors new to the specification.
fn push_new_behavior_lines(out: &mut String, news: &Vec<&Anchor>)
    requires
        forall|j: int| 0 <= j < news@.len() ==> (anchor_attr(*#[trigger] news@[j], "behavior"@) is Some),
    ensures
        final(out)@ == old(out)@ + concat_map(derefs(news@), |a: Anchor| new_line("Behavior"@, a, "behavior"@)),
{
    let ghost ds = derefs(news@);
    let ghost head = out@;
    let mut k: usize = 0;
    while k < news.len()
        invariant
            k <= news@.len(),
            ds == derefs(news@),
            forall|j: int| 0 <= j < news@.len() ==> (anchor_attr(*#[trigger] news@[j], "behavior"@) is Some),
            out@ == head + concat_map(ds.take(k as int), |a: Anchor| new_line("Behavior"@, a, "behavior"@)),
        decreases news.len() - k,
    {
        proof {
            lemma_concat_map_push(ds, |a: Anchor| new_line("Behavior"@, a, "behavior"@), k as int);
        }
        let a = news[k];
        assert(ds[k as int] == *a);
        push_str(out, "- ");
        push_str(out, "Behavior");
        push_str(out, " `");
        match a.behavior_name() {
            Some(n) => push_str(out, n),
            None => {},
        }
        push_str(out, "` at ");
        push_str(out, a.file_path.as_str());
        push_str(out, ":");
        push_decimal_succ(out, a.line as u64);
        push_str(out, "\n");
        k += 1;
    }
    assert(ds.take(ds.len() as int) =~= ds);
}

/// Append the invalid-anchor part of the validation.
fn push_invalid_section(out: &mut String, invalid: &Vec<InvalidAnchor>)
    requires
        forall|j: int| 0 <= j < invalid@.len() ==> #[trigger] invalid@[j].suggestions@.len() == 0,
    ensures
        final(out)@ == old(out)@ + invalid_section(invalid@.map_values(|i: InvalidAnchor| invalid_view(i))),
{
    if invalid.len() > 0 {
        push_str(out, "### ❌ Invalid Anchors (");
        push_decimal(out, invalid.len() as u64);
        push_str(out, " found)\n\n");
        push_str(out, "These anchors reference spec elements that don't exist:\n\n");
        push_invalid_lines(out, invalid);
        push_str(out, "\n");
    }
}

/// Append the orphan part of the validation.
fn push_orphan_section(out: &mut String, orphans: &Vec<OrphanSpecElement>)
    ensures
        final(out)@ == old(out)@ + orphan_section(orphans@.map_values(|o: OrphanSpecElement| orphan_view(o))),
{
    if orphans.len() > 0 {
        push_str(out, "### ⚠️ Orphan Spec Elements (");
        push_decimal(out, orphans.len() as u64);
        push_str(out, " found)\n\n");
        push_str(out, "These spec elements have no code anchor:\n\n");
        push_orphan_lines(out, orphans);
        push_str(out, "\n");
    }
}

/// Append the part of the validation that lists elements new to the spec.
fn push_new_section(out: &mut String, collection: &AnchorCollection, symbols: &SymbolTable)
    ensures
        final(out)@ == old(out)@ + new_section(new_concepts(collection@, symbols@), new_behaviors(collection@, symbols@)),
{
    let new_concepts_found = new_elements(collection, symbols, true);
    let new_behaviors_found = new_elements(collection, symbols, false);
    proof {
        lemma_new_concepts_named(collection@, symbols@);
        lemma_new_behaviors_named(collection@, symbols@);
        assert forall|j: int| 0 <= j < new_concepts_found@.len() implies (anchor_attr(
            *#[trigger] new_concepts_found@[j],
            "concept"@,
        ) is Some) by {
            assert(derefs(new_concepts_found@)[j] == *new_concepts_found@[j]);
        }
        assert forall|j: int| 0 <= j < new_behaviors_found@.len() implies (anchor_attr(
            *#[trigger] new_behaviors_found@[j],
            "behavior"@,
        ) is Some) by {
            assert(derefs(new_behaviors_found@)[j] == *new_behaviors_found@[j]);
        }
    }
    if new_concepts_found.len() > 0 || new_behaviors_found.len() > 0 {
        push_str(out, "### 🆕 New Elements (not in spec)\n\n");
        push_str(out, "These anchors define elements not yet in the spec:\n\n");
        push_new_concept_lines(out, &new_concepts_found);
        push_new_behavior_lines(out, &new_behaviors_found);
        push_str(out, "\n");
    }
}

/// Append the validation part of `extract_spec`'s answer.
fn push_validation(out: &mut String, collection: &AnchorCollection, symbols: &SymbolTable)
    ensures
        final(out)@ == old(out)@ + validation_text(
            collection@,
            symbols@,
            symbols.concepts.key_seq(),
            symbols.behaviors.key_seq(),
            symbols.requirements.key_seq(),
        ),
{
    let ghost start = out@;
    let validation = validate_anchors(collection, symbols);
    push_str(out, "\n## Validation Results\n\n");
    push_invalid_section(out, &validation.invalid);
    push_orphan_section(out, &validation.orphan_spec_elements);
    if validation.valid.len() > 0 {
        push_str(out, "### ✅ Valid Anchors (");
        push_decimal(out, validation.valid.len() as u64);
        push_str(out, " found)\n\n");
    }
    push_new_section(out, collection, symbols);
    assert(out@ =~= start + validation_text(
        collection@,
        symbols@,
        symbols.concepts.key_seq(),
        symbols.behaviors.key_seq(),
        symbols.requirements.key_seq(),
    ));
}

/// Every anchor new to the specification names its concept.
proof fn lemma_new_concepts_named(s: Seq<Anchor>, t: TableModel)
    ensures
        forall|j: int| 0 <= j < new_concepts(s, t).len() ==> (anchor_attr(
            #[trigger] new_concepts(s, t)[j],
            "concept"@,
        ) is Some),
    decreases s.len(),
{
    if s.len() > 0 {
        lemma_new_concepts_named(s.drop_last(), t);
    }
}

/// Every anchor new to the specification names its behavior.
proof fn lemma_new_behaviors_named(s: Seq<Anchor>, t: TableModel)
    ensures
        forall|j: int| 0 <= j < new_behaviors(s, t).len() ==> (anchor_attr(
            #[trigger] new_behaviors(s, t)[j],
            "behavior"@,
        ) is Some),
    decreases s.len(),
{
    if s.len() > 0 {
        lemma_new_behaviors_named(s.drop_last(), t);
    }
}

/// The comparison a report is made with, taken by its view.
pub open spec fn comparison_view(c: Option<Result<&SymbolTable, &str>>) -> Option<Result<SymbolTable, Seq<char>>> {
    match c {
        Some(Ok(t)) => Some(Ok(*t)),
        Some(Err(e)) => Some(Err(e@)),
        None => None,
    }
}

impl ToposServer {
    /// Report a file's diagnostics: none found, or one line per diagnostic.
    pub fn validate_spec(&self, path: &str, diagnostics: &Vec<Diagnostic>) -> (out: String)
        ensures
            out@ == validation_report_text(path@, crate::legacy::diagnostic_views(diagnostics@)),
    {
        validation_report(path, diagnostics)
    }

    /// Summarize a specification: requirements, concepts, tasks and counts.
    pub fn summarize_spec(&self, path: &str, symbols: &SymbolTable, trace: &TraceabilityGraph) -> (out: String)
        ensures
            out@ == summary_text(path@, *symbols, *trace),
    {
        spec_summary(path, symbols, trace)
    }

    /// The answer of `extract_spec` for the anchors extracted from `files`:
    /// what was found, the validation against a specification when one was
    /// given (or why it could not be read), and the generated specification.
    pub fn extract_spec(
        &self,
        spec_name: &str,
        files: &Vec<String>,
        collection: &AnchorCollection,
        comparison: Option<Result<&SymbolTable, &str>>,
    ) -> (out: String)
        ensures
            collection.well_formed() ==> out@ == extract_report_text(
                spec_name@,
                views(files@),
                collection@,
                comparison_view(comparison),
            ),
    {
        let mut out = String::new();
        push_extract_header(&mut out, spec_name, files, collection);
        let ghost s1 = out@;
        match comparison {
            Some(Ok(symbols)) => push_validation(&mut out, collection, symbols),
            Some(Err(e)) => {
                push_str(&mut out, "\n⚠️ Could not read comparison spec: ");
                push_str(&mut out, e);
                push_str(&mut out, "\n\n");
            },
            None => {},
        }
        let ghost s2 = out@;
        push_str(&mut out, "\n---\n\n");
        let spec = collection.generate_spec(spec_name);
        push_str(&mut out, spec.as_str());
        out
    }
}

// ============================================================================
// suggest_hole
// ============================================================================

/// The first hole at a line and column, as `HoleCollection::find_at` finds it.
pub open spec fn hole_at_position(hs: Seq<HoleWithContext>, l: u32, c: u32, r: Option<&HoleWithContext>) -> bool {
    match r {
        Some(h) => exists|i: int|
            0 <= i < hs.len() && hs[i] == *h && position_in(h.hole.span, l, c) && forall|j: int|
                0 <= j < i ==> !position_in(#[trigger] hs[j].hole.span, l, c),
        None => forall|j: int| 0 <= j < hs.len() ==> !position_in(#[trigger] hs[j].hole.span, l, c),
    }
}

/// The first hole at a byte offset, as `HoleCollection::find_at_offset` finds it.
pub open spec fn hole_at_offset(hs: Seq<HoleWithContext>, o: u32, r: Option<&HoleWithContext>) -> bool {
    match r {
        Some(h) => exists|i: int|
            0 <= i < hs.len() && hs[i] == *h && offset_in(h.hole.span, o) && forall|j: int|
                0 <= j < i ==> !offset_in(#[trigger] hs[j].hole.span, o),
        None => forall|j: int| 0 <= j < hs.len() ==> !offset_in(#[trigger] hs[j].hole.span, o),
    }
}

/// The text that places a hole in its context for a suggestion request.
pub open spec fn parent_context_text(p: ParentView) -> Seq<char> {
    match p {
        ParentView::ConceptField { concept_name, field_name } => "field "@ + field_name
            + " in Concept "@ + concept_name,
        ParentView::BehaviorSignature { behavior_name, position } => position_text(position)
            + " of Behavior "@ + behavior_name,
        ParentView::BehaviorReturns { behavior_name } => "returns clause of Behavior "@
            + behavior_name,
        ParentView::BehaviorConstraint { behavior_name, constraint_kind } => constraint_kind
            + " constraint of Behavior "@ + behavior_name,
        ParentView::Unknown => "unknown context"@,
    }
}

/// `n` minus `k`, or zero.
pub open spec fn sat_sub(n: u32, k: u32) -> u32 {
    if n >= k {
        (n - k) as u32
    } else {
        0
    }
}

/// The smaller of two numbers.
pub open spec fn min_u32(a: u32, b: u32) -> u32 {
    if a <= b {
        a
    } else {
        b
    }
}

/// The lines around a hole: from five before its first line to five after
/// its last, within the file, joined by newlines.
pub open spec fn surrounding_text(lines: Seq<Seq<char>>, s: Span) -> Seq<char> {
    join(
        lines.subrange(sat_sub(s.start_line, 5) as int, min_u32((s.end_line + 5) as u32, lines.len() as u32) as int),
        "\n"@,
    )
}

/// A number right-aligned in four columns.
pub open spec fn pad4(d: Seq<char>) -> Seq<char> {
    if d.len() >= 4 {
        d
    } else {
        Seq::new((4 - d.len()) as nat, |i: int| ' ') + d
    }
}

/// The listing line of line `i` (0-indexed) of a file: marked when it lies
/// within the hole's lines, numbered from one.
pub open spec fn listing_line(i: int, line: Seq<char>, s: Span) -> Seq<char> {
    (if s.start_line <= i <= s.end_line {
        ">>>"@
    } else {
        "   "@
    }) + " "@ + pad4(decimal((i + 1) as nat)) + " | "@ + line + "\n"@
}

/// The listing of the lines around a hole: from three before its first
/// line to three after its last, within the file.
pub open spec fn listing_text(lines: Seq<Seq<char>>, s: Span) -> Seq<char> {
    let start = sat_sub(s.start_line, 3) as int;
    let end = min_u32((s.end_line + 3) as u32, lines.len() as u32) as int;
    concat_map(
        Seq::new((end - start) as nat, |k: int| start + k),
        |i: int| listing_line(i, lines[i], s),
    )
}

impl ToposServer {
    /// The hole a suggestion request names: the one at the line and column
    /// when both are given, else the one at the offset, else the first.
    pub fn select_hole<'a>(
        &self,
        holes: &'a HoleCollection,
        line: Option<u32>,
        column: Option<u32>,
        offset: Option<u32>,
    ) -> (r: Option<&'a HoleWithContext>)
        ensures
            match (line, column) {
                (Some(l), Some(c)) => hole_at_position(holes.holes@, l, c, r),
                _ => match offset {
                    Some(o) => hole_at_offset(holes.holes@, o, r),
                    None => match r {
                        Some(h) => holes.holes@.len() > 0 && *h == holes.holes@[0],
                        None => holes.holes@.len() == 0,
                    },
                },
            },
    {
        match (line, column) {
            (Some(l), Some(c)) => holes.find_at(l, c),
            _ => match offset {
                Some(o) => holes.find_at_offset(o),
                None => {
                    if holes.holes.len() > 0 {
                        Some(&holes.holes[0])
                    } else {
                        None
                    }
                },
            },
        }
    }
}

/// The text that places a hole in its context for a suggestion request.
pub fn hole_parent_context(parent: &HoleParent) -> (r: String)
    ensures
        r@ == parent_context_text(parent@),
{
    let mut r = String::new();
    match parent {
        HoleParent::ConceptField { concept_name, field_name } => {
            push_str(&mut r, "field ");
            push_str(&mut r, field_name.as_str());
            push_str(&mut r, " in Concept ");
            push_str(&mut r, concept_name.as_str());
        },
        HoleParent::BehaviorSignature { behavior_name, position } => {
            push_str(&mut r, position.description());
            push_str(&mut r, " of Behavior ");
            push_str(&mut r, behavior_name.as_str());
        },
        HoleParent::BehaviorReturns { behavior_name } => {
            push_str(&mut r, "returns clause of Behavior ");
            push_str(&mut r, behavior_name.as_str());
        },
        HoleParent::BehaviorConstraint { behavior_name, constraint_kind } => {
            push_str(&mut r, constraint_kind.as_str());
            push_str(&mut r, " constraint of Behavior ");
            push_str(&mut r, behavior_name.as_str());
        },
        HoleParent::Unknown => {
            push_str(&mut r, "unknown context");
        },
    }
    r
}

/// The lines around a hole, for a suggestion request.
pub fn surrounding_code(lines: &Vec<String>, span: Span) -> (r: String)
    requires
        span.end_line + 5 <= u32::MAX,
        sat_sub(span.start_line, 5) <= min_u32((span.end_line + 5) as u32, lines@.len() as u32),
    ensures
        r@ == surrounding_text(views(lines@), span),
{
    let start = span.start_line.saturating_sub(5);
    let n = lines.len();
    let nu = n as u32;
    let end = if span.end_line + 5 <= nu {
        span.end_line + 5
    } else {
        nu
    };
    let mut part: Vec<String> = Vec::new();
    let mut i: usize = start as usize;
    let ghost vs = views(lines@);
    assert(nu <= n) by (bit_vector)
        requires
            nu == n as u32,
    ;
    assert(views(part@) =~= vs.subrange(start as int, start as int));
    while i < end as usize
        invariant
            start as int <= i <= end as int,
            end as int <= lines@.len(),
            vs == views(lines@),
            views(part@) == vs.subrange(start as int, i as int),
        decreases end as usize - i,
    {
        let ghost p0 = part@;
        part.push(lines[i].clone());
        assert(views(part@) =~= views(p0).push(vs[i as int]));
        assert(vs.subrange(start as int, i + 1) =~= vs.subrange(start as int, i as int).push(vs[i as int]));
        i += 1;
    }
    joined(&part, "\n")
}

/// A number right-aligned in four columns.
fn padded4(n: u64) -> (r: String)
    ensures
        r@ == pad4(decimal(n as nat)),
{
    let d = crate::text::decimal_string(n);
    let dv = crate::text::chars_of(d.as_str());
    let mut r = String::new();
    let len = dv.len();
    if len < 4 {
        let mut k: usize = 0;
        while k < 4 - len
            invariant
                len < 4,
                k <= 4 - len,
                r@ == Seq::new(k as nat, |i: int| ' '),
            decreases 4 - len - k,
        {
            crate::text::push_char(&mut r, ' ');
            assert(r@ =~= Seq::new((k + 1) as nat, |i: int| ' '));
            k += 1;
        }
    }
    push_str(&mut r, d.as_str());
    assert(r@ =~= pad4(decimal(n as nat)));
    r
}

/// The listing of the lines around a hole, each marked when it lies within
/// the hole and numbered from one.
pub fn hole_listing(lines: &Vec<String>, span: Span) -> (r: String)
    requires
        span.end_line + 3 <= u32::MAX,
        sat_sub(span.start_line, 3) <= min_u32((span.end_line + 3) as u32, lines@.len() as u32),
    ensures
        r@ == listing_text(views(lines@), span),
{
    let ghost vs = views(lines@);
    let start = span.start_line.saturating_sub(3);
    let n = lines.len();
    let nu = n as u32;
    let end = if span.end_line + 3 <= nu {
        span.end_line + 3
    } else {
        nu
    };
    assert(nu <= n) by (bit_vector)
        requires
            nu == n as u32,
    ;
    let ghost idx = Seq::new((end - start) as nat, |k: int| start + k);
    let ghost f = |i: int| listing_line(i, vs[i], span);
    let mut out = String::new();
    let mut i: u32 = start;
    assert(idx.take(0) =~= Seq::<int>::empty());
    while i < end
        invariant
            start <= i <= end,
            end as int <= lines@.len(),
            vs == views(lines@),
            idx == Seq::new((end - start) as nat, |k: int| start + k),
            f == (|i: int| listing_line(i, vs[i], span)),
            out@ == concat_map(idx.take(i - start), f),
        decreases end - i,
    {
        proof {
            lemma_concat_map_push(idx, f, i - start);
            assert(idx[i - start] == i as int);
        }
        let marker = if i >= span.start_line && i <= span.end_line {
            ">>>"
        } else {
            "   "
        };
        push_str(&mut out, marker);
        push_str(&mut out, " ");
        let num = padded4(i as u64 + 1);
        push_str(&mut out, num.as_str());
        push_str(&mut out, " | ");
        push_str(&mut out, lines[i as usize].as_str());
        push_str(&mut out, "\n");
        assert(vs[i as int] == lines@[i as int]@);
        i += 1;
    }
    assert(idx.take(end - start) =~= idx);
    out
}

/// The head of the answer to a suggestion request: the hole's context and
/// the lines around it, up to the heading of the suggestions.
pub open spec fn hole_report_head(prompt: Seq<char>, listing: Seq<char>) -> Seq<char> {
    "# Typed Hole Suggestions\n\n"@ + "## Hole Context\n\n"@ + prompt + "\n"@
        + "## Surrounding Code\n\n```topos\n"@ + listing + "```\n\n"@ + "## Suggestions\n\n"@
}

impl ToposServer {
    /// The head of the answer to a suggestion request for `hole` in a file
    /// of `lines`: its context and the lines around it.
    pub fn suggest_hole_head(&self, hole: &HoleWithContext, lines: &Vec<String>) -> (r: String)
        requires
            hole.hole.span.end_line + 3 <= u32::MAX,
            sat_sub(hole.hole.span.start_line, 3) <= min_u32(
                (hole.hole.span.end_line + 3) as u32,
                lines@.len() as u32,
            ),
        ensures
            r@ == hole_report_head(crate::holes::prompt_text(hole@), listing_text(views(lines@), hole.hole.span)),
    {
        let mut out = String::new();
        push_str(&mut out, "# Typed Hole Suggestions\n\n");
        push_str(&mut out, "## Hole Context\n\n");
        let ctx = hole.prompt_context();
        push_str(&mut out, ctx.as_str());
        push_str(&mut out, "\n");
        push_str(&mut out, "## Surrounding Code\n\n```topos\n");
        let listing = hole_listing(lines, hole.span());
        push_str(&mut out, listing.as_str());
        push_str(&mut out, "```\n\n");
        push_str(&mut out, "## Suggestions\n\n");
        out
    }
}

/// The closing note of the answer to a suggestion request: whether the
/// suggestions came from the model or from heuristics.
pub fn suggestion_source_note(from_model: bool) -> (r: &'static str)
    ensures
        r@ == if from_model {
            "\n*Suggestions powered by LLM*\n"@
        } else {
            "\n*Heuristic suggestions (set ANTHROPIC_API_KEY for LLM-powered suggestions)*\n"@
        },
{
    if from_model {
        "\n*Suggestions powered by LLM*\n"
    } else {
        "\n*Heuristic suggestions (set ANTHROPIC_API_KEY for LLM-powered suggestions)*\n"
    }
}

} // verus!
