//! AI context generation: the task-focused context handed to coding
//! assistants (the task, its requirements, the domain concepts and the
//! behaviors that implement those requirements), and its text forms.
use vstd::prelude::*;

use crate::ast::{all_contents, SectionContent, SourceFile};
use crate::diff::{dedup, holds_string};
use crate::llm::wrapped_lines;
use crate::strmap::{StrMap, StrSet};
use crate::strmap::has_key;
use crate::symbols::{
    declared_fields_have_symbols, declares_field, field_of, field_symbol_name, field_symbols_are_declared_fields,
    own_symbol_name, symbol_names_dotless, symbols, symbols_of, Symbol, SymbolKind, SymbolTable, TableModel,
};
use crate::text::{
    chars_of, find, find_after, find_at_or_after, find_spec, first_occurrence, join, occurs_at, owned, push_joined,
    push_str, starts_with, string_from_range, views,
};
use crate::traceability::{graph_of, set_items, traceability, TraceabilityGraph};

verus! {

// ============================================================================
// Types
// ============================================================================

/// Output format for compiled context.
#[derive(Debug, Clone, Copy, PartialEq, Eq, Structural)]
pub enum OutputFormat {
    /// Cursor .mdc rule file format.
    Cursor,
    /// Windsurf rules format.
    Windsurf,
    /// Cline rules format.
    Cline,
    /// Plain Markdown (the default).
    Markdown,
    /// Structured JSON.
    Json,
}

impl Default for OutputFormat {
    fn default() -> (f: Self)
        ensures
            f == OutputFormat::Markdown,
    {
        OutputFormat::Markdown
    }
}

/// Options for context compilation.
#[derive(Debug, Clone)]
pub struct CompileOptions {
    /// Maximum depth for transitive reference collection.
    pub max_depth: Option<usize>,
    /// Maximum token budget (approximate).
    pub max_tokens: Option<usize>,
    /// Include requirement descriptions.
    pub include_descriptions: bool,
    /// Include related concepts and behaviors.
    pub include_behaviors: bool,
}

impl Default for CompileOptions {
    fn default() -> (o: Self)
        ensures
            o.max_depth is None,
            o.max_tokens is None,
            !o.include_descriptions,
            !o.include_behaviors,
    {
        CompileOptions {
            max_depth: None,
            max_tokens: None,
            include_descriptions: false,
            include_behaviors: false,
        }
    }
}

/// Context for a requirement.
#[derive(Debug, Clone)]
pub struct RequirementContext {
    /// Requirement ID.
    pub id: String,
    /// Requirement title.
    pub title: String,
}

/// Context for a concept.
#[derive(Debug, Clone)]
pub struct ConceptContext {
    /// Concept name.
    pub name: String,
    /// Field names.
    pub fields: Vec<String>,
}

/// Context for a behavior.
#[derive(Debug, Clone)]
pub struct BehaviorContext {
    /// Behavior name.
    pub name: String,
    /// Requirements it implements.
    pub implements: Vec<String>,
}

/// Compiled context for a task.
#[derive(Debug, Clone)]
pub struct CompiledContext {
    /// The task ID.
    pub task_id: String,
    /// Task title/description.
    pub task_title: String,
    /// Task status.
    pub task_status: Option<String>,
    /// Linked requirements.
    pub requirements: Vec<RequirementContext>,
    /// Related concepts.
    pub concepts: Vec<ConceptContext>,
    /// Related behaviors.
    pub behaviors: Vec<BehaviorContext>,
}

/// A requirement's context, strings taken by their views.
pub struct RequirementContextView {
    pub id: Seq<char>,
    pub title: Seq<char>,
}

/// A concept's context, strings taken by their views.
pub struct ConceptContextView {
    pub name: Seq<char>,
    pub fields: Seq<Seq<char>>,
}

/// A behavior's context, strings taken by their views.
pub struct BehaviorContextView {
    pub name: Seq<char>,
    pub implements: Seq<Seq<char>>,
}

/// A compiled context, strings taken by their views.
pub struct CompiledContextView {
    pub task_id: Seq<char>,
    pub task_title: Seq<char>,
    pub task_status: Option<Seq<char>>,
    pub requirements: Seq<RequirementContextView>,
    pub concepts: Seq<ConceptContextView>,
    pub behaviors: Seq<BehaviorContextView>,
}

impl View for RequirementContext {
    type V = RequirementContextView;

    open spec fn view(&self) -> RequirementContextView {
        RequirementContextView { id: self.id@, title: self.title@ }
    }
}

impl View for ConceptContext {
    type V = ConceptContextView;

    open spec fn view(&self) -> ConceptContextView {
        ConceptContextView { name: self.name@, fields: views(self.fields@) }
    }
}

impl View for BehaviorContext {
    type V = BehaviorContextView;

    open spec fn view(&self) -> BehaviorContextView {
        BehaviorContextView { name: self.name@, implements: views(self.implements@) }
    }
}

/// The views of a sequence of values.
pub open spec fn all_views<T: View>(s: Seq<T>) -> Seq<T::V> {
    s.map_values(|x: T| x@)
}

impl View for CompiledContext {
    type V = CompiledContextView;

    open spec fn view(&self) -> CompiledContextView {
        CompiledContextView {
            task_id: self.task_id@,
            task_title: self.task_title@,
            task_status: match self.task_status {
                Some(s) => Some(s@),
                None => None,
            },
            requirements: all_views(self.requirements@),
            concepts: all_views(self.concepts@),
            behaviors: all_views(self.behaviors@),
        }
    }
}

// ============================================================================
// Compiling a context
// ============================================================================

/// The contexts of the requirements `ids` that the table defines, in order;
/// a requirement without a title is titled by its ID.
pub open spec fn req_contexts(ids: Seq<Seq<char>>, t: TableModel) -> Seq<RequirementContextView>
    decreases ids.len(),
{
    if ids.len() == 0 {
        Seq::empty()
    } else {
        let prev = req_contexts(ids.drop_last(), t);
        let x = ids.last();
        if t.requirements.contains_key(x) {
            let s = t.requirements[x];
            prev.push(
                RequirementContextView {
                    id: s.name,
                    title: match s.title {
                        Some(ti) => ti,
                        None => s.name,
                    },
                },
            )
        } else {
            prev
        }
    }
}

/// The second `.`-separated segment of `k` (empty when `k` has no `.`).
pub open spec fn second_segment(k: Seq<char>) -> Seq<char> {
    match find_spec(k, "."@) {
        Some(i) => match find_at_or_after(k, "."@, i + 1) {
            Some(j) => k.subrange(i + 1, j),
            None => k.subrange(i + 1, k.len() as int),
        },
        None => Seq::empty(),
    }
}

/// The field names of concept `n`: the second segment of each field symbol
/// named `n.…`, in the order of `keys`.
pub open spec fn field_segments(keys: Seq<Seq<char>>, syms: Map<Seq<char>, Symbol>, n: Seq<char>) -> Seq<Seq<char>>
    decreases keys.len(),
{
    if keys.len() == 0 {
        Seq::empty()
    } else {
        let prev = field_segments(keys.drop_last(), syms, n);
        let k = keys.last();
        if syms[k].kind == SymbolKind::Field && (n + "."@).is_prefix_of(k) {
            prev.push(second_segment(k))
        } else {
            prev
        }
    }
}

/// One context per concept name of `names`, with its fields.
pub open spec fn concept_list(names: Seq<Seq<char>>, t: SymbolTable) -> Seq<ConceptContextView>
    decreases names.len(),
{
    if names.len() == 0 {
        Seq::empty()
    } else {
        concept_list(names.drop_last(), t).push(
            ConceptContextView {
                name: names.last(),
                fields: field_segments(t.symbols.key_seq(), t.symbols@, names.last()),
            },
        )
    }
}

/// The behaviors linked to the requirements `ids`, requirement by requirement.
pub open spec fn behavior_candidates(ids: Seq<Seq<char>>, g: TraceabilityGraph) -> Seq<Seq<char>>
    decreases ids.len(),
{
    if ids.len() == 0 {
        Seq::empty()
    } else {
        behavior_candidates(ids.drop_last(), g) + set_items(g.req_to_behaviors, ids.last())
    }
}

/// The contexts of the behaviors `names` that the table defines, in order.
pub open spec fn behavior_list(names: Seq<Seq<char>>, g: TraceabilityGraph, t: TableModel) -> Seq<BehaviorContextView>
    decreases names.len(),
{
    if names.len() == 0 {
        Seq::empty()
    } else {
        let prev = behavior_list(names.drop_last(), g, t);
        let b = names.last();
        if t.behaviors.contains_key(b) {
            prev.push(BehaviorContextView { name: b, implements: set_items(g.behavior_to_reqs, b) })
        } else {
            prev
        }
    }
}

/// The context of task `task_id`, read from table `t` and graph `g`: none when
/// the task is not defined; else its title (its ID when untitled) and status,
/// its requirements, and, when `with_related` holds, every concept with its fields
/// and the behaviors that implement its requirements (each once).
pub open spec fn context_from(task_id: Seq<char>, with_related: bool, t: SymbolTable, g: TraceabilityGraph) -> Option<CompiledContextView> {
    if !t@.tasks.contains_key(task_id) {
        None
    } else {
        let ts = t@.tasks[task_id];
        let ids = set_items(g.task_to_reqs, task_id);
        Some(
            CompiledContextView {
                task_id: task_id,
                task_title: match ts.title {
                    Some(x) => x,
                    None => ts.name,
                },
                task_status: ts.status,
                requirements: req_contexts(ids, t@),
                concepts: if with_related {
                    concept_list(t.concepts.key_seq(), t)
                } else {
                    Seq::empty()
                },
                behaviors: if with_related {
                    behavior_list(dedup(behavior_candidates(ids, g)), g, t@)
                } else {
                    Seq::empty()
                },
            },
        )
    }
}

/// The view of an optional context.
pub open spec fn opt_context_view(c: Option<CompiledContext>) -> Option<CompiledContextView> {
    match c {
        Some(x) => Some(x@),
        None => None,
    }
}

/// The second `.`-separated segment of `k`.
fn second_segment_of(k: &str) -> (r: String)
    ensures
        r@ == second_segment(k@),
{
    let v = chars_of(k);
    let dot = chars_of(".");
    proof {
        reveal_strlit(".");
    }
    let n = v.len();
    match find(&v, &dot) {
        Some(i) => match find_after(&v, &dot, i + 1) {
            Some(j) => string_from_range(&v, i + 1, j),
            None => string_from_range(&v, i + 1, v.len()),
        },
        None => String::new(),
    }
}

/// The field names of concept `name`, from the field symbols of the table.
fn concept_fields(symbols: &SymbolTable, name: &str) -> (r: Vec<String>)
    ensures
        views(r@) == field_segments(symbols.symbols.key_seq(), symbols.symbols@, name@),
{
    let mut prefix = String::new();
    push_str(&mut prefix, name);
    push_str(&mut prefix, ".");
    let ghost keys = symbols.symbols.key_seq();
    let mut r: Vec<String> = Vec::new();
    let mut i: usize = 0;
    let n = symbols.symbols.len();
    while i < n
        invariant
            n == symbols.symbols.entry_seq().len(),
            i <= n,
            keys == symbols.symbols.key_seq(),
            prefix@ == name@ + "."@,
            views(r@) == field_segments(keys.take(i as int), symbols.symbols@, name@),
        decreases n - i,
    {
        let key = symbols.symbols.key_at(i);
        let sym = symbols.symbols.value_at(i);
        proof {
            assert(keys.take(i + 1).drop_last() =~= keys.take(i as int));
            assert(keys.take(i + 1).last() == key@);
        }
        if sym.kind == SymbolKind::Field && starts_with(key.as_str(), prefix.as_str()) {
            let ghost r0 = r@;
            r.push(second_segment_of(key.as_str()));
            assert(views(r@) =~= views(r0).push(second_segment(key@)));
        }
        i += 1;
    }
    assert(keys.take(n as int) =~= keys);
    r
}

/// Collect concepts for context output: every concept of the table, with its
/// fields, to give the full domain vocabulary.
fn collect_concepts(symbols: &SymbolTable) -> (r: Vec<ConceptContext>)
    ensures
        all_views(r@) == concept_list(symbols.concepts.key_seq(), *symbols),
{
    let ghost names = symbols.concepts.key_seq();
    let mut r: Vec<ConceptContext> = Vec::new();
    let mut i: usize = 0;
    let n = symbols.concepts.len();
    while i < n
        invariant
            n == symbols.concepts.entry_seq().len(),
            i <= n,
            names == symbols.concepts.key_seq(),
            all_views(r@) == concept_list(names.take(i as int), *symbols),
        decreases n - i,
    {
        let name = symbols.concepts.key_at(i);
        proof {
            assert(names.take(i + 1).drop_last() =~= names.take(i as int));
            assert(names.take(i + 1).last() == name@);
        }
        let fields = concept_fields(symbols, name.as_str());
        let c = ConceptContext { name: name.clone(), fields };
        let ghost r0 = r@;
        r.push(c);
        assert(all_views(r@) =~= all_views(r0).push(c@));
        i += 1;
    }
    assert(names.take(n as int) =~= names);
    r
}

/// Collect behaviors related to requirements: those linked to each
/// requirement in turn, each once, that the table defines.
fn collect_behaviors(symbols: &SymbolTable, trace: &TraceabilityGraph, req_ids: &Vec<String>) -> (r: Vec<BehaviorContext>)
    ensures
        all_views(r@) == behavior_list(
            dedup(behavior_candidates(views(req_ids@), *trace)),
            *trace,
            symbols@,
        ),
{
    let ghost ids = views(req_ids@);
    let mut seen: Vec<String> = Vec::new();
    let mut r: Vec<BehaviorContext> = Vec::new();
    let mut i: usize = 0;
    while i < req_ids.len()
        invariant
            i <= req_ids@.len(),
            ids == views(req_ids@),
            views(seen@) == dedup(behavior_candidates(ids.take(i as int), *trace)),
            all_views(r@) == behavior_list(views(seen@), *trace, symbols@),
        decreases req_ids.len() - i,
    {
        proof {
            assert(ids.take(i + 1).drop_last() =~= ids.take(i as int));
            assert(ids.take(i + 1).last() == req_ids@[i as int]@);
        }
        let ghost before = behavior_candidates(ids.take(i as int), *trace);
        let names = trace.behaviors_for_req(req_ids[i].as_str());
        let ghost items = views(names@);
        assert(before + items.take(0) =~= before);
        let mut j: usize = 0;
        while j < names.len()
            invariant
                j <= names@.len(),
                items == views(names@),
                views(seen@) == dedup(before + items.take(j as int)),
                all_views(r@) == behavior_list(views(seen@), *trace, symbols@),
            decreases names.len() - j,
        {
            let b = names[j].as_str();
            proof {
                assert((before + items.take(j + 1)).drop_last() =~= before + items.take(j as int));
                assert((before + items.take(j + 1)).last() == b@);
            }
            if !holds_string(&seen, b) {
                let ghost s0 = seen@;
                seen.push(owned(b));
                assert(views(seen@) =~= views(s0).push(b@));
                assert(views(seen@).drop_last() =~= views(s0));
                if symbols.get_behavior(b).is_some() {
                    let implements = trace.reqs_for_behavior(b);
                    let c = BehaviorContext { name: owned(b), implements };
                    let ghost r0 = r@;
                    r.push(c);
                    assert(all_views(r@) =~= all_views(r0).push(c@));
                }
            }
            j += 1;
        }
        assert(items.take(items.len() as int) =~= items);
        assert(behavior_candidates(ids.take(i + 1), *trace) == before + items);
        i += 1;
    }
    assert(ids.take(ids.len() as int) =~= ids);
    r
}

/// Compile context for a specific task: none when the file defines no such
/// task. Requirements, concepts, fields and behaviors come in the order the
/// symbol table and traceability graph of the file hold them.
pub fn compile_context(ast: &SourceFile, task_id: &str, options: CompileOptions) -> (r: Option<CompiledContext>)
    ensures
        exists|t: SymbolTable, g: TraceabilityGraph|
            #![trigger context_from(task_id@, options.include_behaviors, t, g)]
            t@ == symbols_of(*ast) && g@ == graph_of(*ast) && opt_context_view(r) == context_from(
                task_id@,
                options.include_behaviors,
                t,
                g,
            ),
{
    let symbols = symbols(ast);
    let trace = traceability(ast);
    let task_symbol = match symbols.get_task(task_id) {
        Some(s) => s,
        None => {
            assert(context_from(task_id@, options.include_behaviors, symbols, trace) is None);
            return None;
        },
    };
    let req_ids = trace.reqs_for_task(task_id);
    let ghost ids = views(req_ids@);
    let mut requirements: Vec<RequirementContext> = Vec::new();
    let mut i: usize = 0;
    while i < req_ids.len()
        invariant
            i <= req_ids@.len(),
            ids == views(req_ids@),
            all_views(requirements@) == req_contexts(ids.take(i as int), symbols@),
        decreases req_ids.len() - i,
    {
        proof {
            assert(ids.take(i + 1).drop_last() =~= ids.take(i as int));
            assert(ids.take(i + 1).last() == req_ids@[i as int]@);
        }
        match symbols.get_requirement(req_ids[i].as_str()) {
            Some(s) => {
                let title = match &s.title {
                    Some(t) => t.clone(),
                    None => s.name.clone(),
                };
                let c = RequirementContext { id: s.name.clone(), title };
                let ghost r0 = requirements@;
                requirements.push(c);
                assert(all_views(requirements@) =~= all_views(r0).push(c@));
            },
            None => {},
        }
        i += 1;
    }
    assert(ids.take(ids.len() as int) =~= ids);
    let concepts = if options.include_behaviors {
        collect_concepts(&symbols)
    } else {
        Vec::new()
    };
    let behaviors = if options.include_behaviors {
        collect_behaviors(&symbols, &trace, &req_ids)
    } else {
        Vec::new()
    };
    let task_title = match &task_symbol.title {
        Some(t) => t.clone(),
        None => task_symbol.name.clone(),
    };
    let r = CompiledContext {
        task_id: owned(task_id),
        task_title,
        task_status: match &task_symbol.status {
            Some(st) => Some(st.clone()),
            None => None,
        },
        requirements,
        concepts,
        behaviors,
    };
    proof {
        assert(all_views(r.concepts@) =~= (if options.include_behaviors {
            concept_list(symbols.concepts.key_seq(), symbols)
        } else {
            Seq::empty()
        }));
        assert(all_views(r.behaviors@) =~= (if options.include_behaviors {
            behavior_list(dedup(behavior_candidates(ids, trace)), trace, symbols@)
        } else {
            Seq::empty()
        }));
        assert(opt_context_view(Some(r)) == context_from(
            task_id@,
            options.include_behaviors,
            symbols,
            trace,
        ));
    }
    Some(r)
}

// ============================================================================
// Text forms
// ============================================================================

/// `- **ID**: title` lines for requirements.
pub open spec fn cursor_req_lines(rs: Seq<RequirementContextView>) -> Seq<char>
    decreases rs.len(),
{
    if rs.len() == 0 {
        Seq::empty()
    } else {
        cursor_req_lines(rs.drop_last()) + "- **"@ + rs.last().id + "**: "@ + rs.last().title + "\n"@
    }
}

/// The blocks for concepts in the Cursor form.
pub open spec fn cursor_concept_blocks(cs: Seq<ConceptContextView>) -> Seq<char>
    decreases cs.len(),
{
    if cs.len() == 0 {
        Seq::empty()
    } else {
        cursor_concept_blocks(cs.drop_last()) + "### "@ + cs.last().name + "\n"@ + (if cs.last().fields.len() > 0 {
            "Fields:\n"@ + wrapped_lines("- "@, "\n"@, cs.last().fields)
        } else {
            Seq::empty()
        }) + "\n"@
    }
}

/// `- **name** implements: …` lines for behaviors.
pub open spec fn cursor_behavior_lines(bs: Seq<BehaviorContextView>) -> Seq<char>
    decreases bs.len(),
{
    if bs.len() == 0 {
        Seq::empty()
    } else {
        cursor_behavior_lines(bs.drop_last()) + "- **"@ + bs.last().name + "** implements: "@ + join(
            bs.last().implements,
            ", "@,
        ) + "\n"@
    }
}

/// The Cursor `.mdc` rule file form.
pub open spec fn cursor_text(c: CompiledContextView) -> Seq<char> {
    "---\n"@ + "description: Task "@ + c.task_id + " context\n"@ + "globs:\n"@ + "alwaysApply: false\n"@
        + "---\n\n"@ + "# Task: "@ + c.task_id + "\n\n"@ + (if c.requirements.len() > 0 {
        "## Requirements\n\n"@ + cursor_req_lines(c.requirements) + "\n"@
    } else {
        Seq::empty()
    }) + (if c.concepts.len() > 0 {
        "## Concepts\n\n"@ + cursor_concept_blocks(c.concepts)
    } else {
        Seq::empty()
    }) + (if c.behaviors.len() > 0 {
        "## Behaviors\n\n"@ + cursor_behavior_lines(c.behaviors)
    } else {
        Seq::empty()
    })
}

/// `### ID` / title blocks for requirements in the Markdown form.
pub open spec fn markdown_req_blocks(rs: Seq<RequirementContextView>) -> Seq<char>
    decreases rs.len(),
{
    if rs.len() == 0 {
        Seq::empty()
    } else {
        markdown_req_blocks(rs.drop_last()) + "### "@ + rs.last().id + "\n"@ + rs.last().title
            + "\n\n"@
    }
}

/// The blocks for concepts in the Markdown form: a table of fields.
pub open spec fn markdown_concept_blocks(cs: Seq<ConceptContextView>) -> Seq<char>
    decreases cs.len(),
{
    if cs.len() == 0 {
        Seq::empty()
    } else {
        markdown_concept_blocks(cs.drop_last()) + "### "@ + cs.last().name + "\n"@ + (if cs.last().fields.len() > 0 {
            "\n| Field |\n|-------|\n"@ + wrapped_lines("| "@, " |\n"@, cs.last().fields)
        } else {
            Seq::empty()
        }) + "\n"@
    }
}

/// The blocks for behaviors in the Markdown form.
pub open spec fn markdown_behavior_blocks(bs: Seq<BehaviorContextView>) -> Seq<char>
    decreases bs.len(),
{
    if bs.len() == 0 {
        Seq::empty()
    } else {
        markdown_behavior_blocks(bs.drop_last()) + "### "@ + bs.last().name + "\n"@ + "Implements: "@
            + join(bs.last().implements, ", "@) + "\n\n"@
    }
}

/// The plain Markdown form.
pub open spec fn markdown_text(c: CompiledContextView) -> Seq<char> {
    "# "@ + c.task_id + "\n\n"@ + (match c.task_status {
        Some(s) => "**Status**: "@ + s + "\n\n"@,
        None => Seq::empty(),
    }) + (if c.requirements.len() > 0 {
        "## Linked Requirements\n\n"@ + markdown_req_blocks(c.requirements)
    } else {
        Seq::empty()
    }) + (if c.concepts.len() > 0 {
        "## Domain Concepts\n\n"@ + markdown_concept_blocks(c.concepts)
    } else {
        Seq::empty()
    }) + (if c.behaviors.len() > 0 {
        "## Related Behaviors\n\n"@ + markdown_behavior_blocks(c.behaviors)
    } else {
        Seq::empty()
    })
}

/// `- Requirement **ID** is satisfied` lines.
pub open spec fn cline_req_lines(rs: Seq<RequirementContextView>) -> Seq<char>
    decreases rs.len(),
{
    if rs.len() == 0 {
        Seq::empty()
    } else {
        cline_req_lines(rs.drop_last()) + "- Requirement **"@ + rs.last().id + "** is satisfied\n"@
    }
}

/// The Cline rules form: instructions, then the Markdown form.
pub open spec fn cline_text(c: CompiledContextView) -> Seq<char> {
    "# Task Context: "@ + c.task_id + "\n\n"@ + "## Instructions\n\n"@
        + "When working on it, ensure:\n\n"@ + cline_req_lines(c.requirements) + "\n"@
        + markdown_text(c)
}

/// The Windsurf rules form: a marker line, then the Markdown form.
pub open spec fn windsurf_text(c: CompiledContextView) -> Seq<char> {
    "<!-- Windsurf Rules -->\n\n"@ + markdown_text(c)
}

/// The text form of a context in a format other than JSON.
pub open spec fn context_text(c: CompiledContextView, format: OutputFormat) -> Seq<char> {
    match format {
        OutputFormat::Cursor => cursor_text(c),
        OutputFormat::Windsurf => windsurf_text(c),
        OutputFormat::Cline => cline_text(c),
        OutputFormat::Markdown => markdown_text(c),
        OutputFormat::Json => Seq::empty(),
    }
}

/// Appends one line per item.
fn push_lines(out: &mut String, pre: &str, post: &str, items: &Vec<String>)
    ensures
        final(out)@ == old(out)@ + wrapped_lines(pre@, post@, views(items@)),
{
    let ghost start = out@;
    let ghost vs = views(items@);
    let mut i: usize = 0;
    while i < items.len()
        invariant
            i <= items@.len(),
            vs == views(items@),
            out@ == start + wrapped_lines(pre@, post@, vs.take(i as int)),
        decreases items.len() - i,
    {
        proof {
            assert(vs.take(i + 1).drop_last() =~= vs.take(i as int));
        }
        push_str(out, pre);
        push_str(out, items[i].as_str());
        push_str(out, post);
        i += 1;
    }
    assert(vs.take(vs.len() as int) =~= vs);
}

/// Appends the requirement part of the Cursor form.
fn push_cursor_requirements(out: &mut String, c: &CompiledContext)
    ensures
        final(out)@ == old(out)@ + (if c@.requirements.len() > 0 {
            "## Requirements\n\n"@ + cursor_req_lines(c@.requirements) + "\n"@
        } else {
            Seq::empty()
        }),
{
    let ghost start = out@;
    let ghost rs = c@.requirements;
    if c.requirements.len() > 0 {
        push_str(out, "## Requirements\n\n");
        let ghost base = out@;
        let mut k: usize = 0;
        while k < c.requirements.len()
            invariant
                k <= c.requirements@.len(),
                rs == all_views(c.requirements@),
                out@ == base + cursor_req_lines(rs.take(k as int)),
            decreases c.requirements.len() - k,
        {
            proof {
                assert(rs.take(k + 1).drop_last() =~= rs.take(k as int));
            }
            let r = &c.requirements[k];
            push_str(out, "- **");
            push_str(out, r.id.as_str());
            push_str(out, "**: ");
            push_str(out, r.title.as_str());
            push_str(out, "\n");
            k += 1;
        }
        assert(rs.take(rs.len() as int) =~= rs);
        push_str(out, "\n");
    }
}

/// Appends the concept part of the Cursor form.
fn push_cursor_concepts(out: &mut String, c: &CompiledContext)
    ensures
        final(out)@ == old(out)@ + (if c@.concepts.len() > 0 {
            "## Concepts\n\n"@ + cursor_concept_blocks(c@.concepts)
        } else {
            Seq::empty()
        }),
{
    let ghost cs = c@.concepts;
    if c.concepts.len() > 0 {
        push_str(out, "## Concepts\n\n");
        let ghost base = out@;
        let mut k: usize = 0;
        while k < c.concepts.len()
            invariant
                k <= c.concepts@.len(),
                cs == all_views(c.concepts@),
                out@ == base + cursor_concept_blocks(cs.take(k as int)),
            decreases c.concepts.len() - k,
        {
            proof {
                assert(cs.take(k + 1).drop_last() =~= cs.take(k as int));
            }
            let concept = &c.concepts[k];
            push_str(out, "### ");
            push_str(out, concept.name.as_str());
            push_str(out, "\n");
            if concept.fields.len() > 0 {
                push_str(out, "Fields:\n");
                push_lines(out, "- ", "\n", &concept.fields);
            }
            push_str(out, "\n");
            k += 1;
        }
        assert(cs.take(cs.len() as int) =~= cs);
    }
}

/// Appends the behavior part of the Cursor form.
fn push_cursor_behaviors(out: &mut String, c: &CompiledContext)
    ensures
        final(out)@ == old(out)@ + (if c@.behaviors.len() > 0 {
            "## Behaviors\n\n"@ + cursor_behavior_lines(c@.behaviors)
        } else {
            Seq::empty()
        }),
{
    let ghost bs = c@.behaviors;
    if c.behaviors.len() > 0 {
        push_str(out, "## Behaviors\n\n");
        let ghost base = out@;
        let mut k: usize = 0;
        while k < c.behaviors.len()
            invariant
                k <= c.behaviors@.len(),
                bs == all_views(c.behaviors@),
                out@ == base + cursor_behavior_lines(bs.take(k as int)),
            decreases c.behaviors.len() - k,
        {
            proof {
                assert(bs.take(k + 1).drop_last() =~= bs.take(k as int));
            }
            let b = &c.behaviors[k];
            push_str(out, "- **");
            push_str(out, b.name.as_str());
            push_str(out, "** implements: ");
            push_joined(out, &b.implements, ", ");
            push_str(out, "\n");
            k += 1;
        }
        assert(bs.take(bs.len() as int) =~= bs);
    }
}

/// Format as Cursor .mdc file.
fn format_cursor(context: &CompiledContext) -> (out: String)
    ensures
        out@ == cursor_text(context@),
{
    let mut out = String::new();
    push_str(&mut out, "---\n");
    push_str(&mut out, "description: Task ");
    push_str(&mut out, context.task_id.as_str());
    push_str(&mut out, " context\n");
    push_str(&mut out, "globs:\n");
    push_str(&mut out, "alwaysApply: false\n");
    push_str(&mut out, "---\n\n");
    push_str(&mut out, "# Task: ");
    push_str(&mut out, context.task_id.as_str());
    push_str(&mut out, "\n\n");
    push_cursor_requirements(&mut out, context);
    push_cursor_concepts(&mut out, context);
    push_cursor_behaviors(&mut out, context);
    out
}

/// Appends the requirement part of the Markdown form.
fn push_markdown_requirements(out: &mut String, c: &CompiledContext)
    ensures
        final(out)@ == old(out)@ + (if c@.requirements.len() > 0 {
            "## Linked Requirements\n\n"@ + markdown_req_blocks(c@.requirements)
        } else {
            Seq::empty()
        }),
{
    let ghost rs = c@.requirements;
    if c.requirements.len() > 0 {
        push_str(out, "## Linked Requirements\n\n");
        let ghost base = out@;
        let mut k: usize = 0;
        while k < c.requirements.len()
            invariant
                k <= c.requirements@.len(),
                rs == all_views(c.requirements@),
                out@ == base + markdown_req_blocks(rs.take(k as int)),
            decreases c.requirements.len() - k,
        {
            proof {
                assert(rs.take(k + 1).drop_last() =~= rs.take(k as int));
            }
            let r = &c.requirements[k];
            push_str(out, "### ");
            push_str(out, r.id.as_str());
            push_str(out, "\n");
            push_str(out, r.title.as_str());
            push_str(out, "\n\n");
            k += 1;
        }
        assert(rs.take(rs.len() as int) =~= rs);
    }
}

/// Appends the concept part of the Markdown form.
fn push_markdown_concepts(out: &mut String, c: &CompiledContext)
    ensures
        final(out)@ == old(out)@ + (if c@.concepts.len() > 0 {
            "## Domain Concepts\n\n"@ + markdown_concept_blocks(c@.concepts)
        } else {
            Seq::empty()
        }),
{
    let ghost cs = c@.concepts;
    if c.concepts.len() > 0 {
        push_str(out, "## Domain Concepts\n\n");
        let ghost base = out@;
        let mut k: usize = 0;
        while k < c.concepts.len()
            invariant
                k <= c.concepts@.len(),
                cs == all_views(c.concepts@),
                out@ == base + markdown_concept_blocks(cs.take(k as int)),
            decreases c.concepts.len() - k,
        {
            proof {
                assert(cs.take(k + 1).drop_last() =~= cs.take(k as int));
            }
            let concept = &c.concepts[k];
            push_str(out, "### ");
            push_str(out, concept.name.as_str());
            push_str(out, "\n");
            if concept.fields.len() > 0 {
                push_str(out, "\n| Field |\n|-------|\n");
                push_lines(out, "| ", " |\n", &concept.fields);
            }
            push_str(out, "\n");
            k += 1;
        }
        assert(cs.take(cs.len() as int) =~= cs);
    }
}

/// Appends the behavior part of the Markdown form.
fn push_markdown_behaviors(out: &mut String, c: &CompiledContext)
    ensures
        final(out)@ == old(out)@ + (if c@.behaviors.len() > 0 {
            "## Related Behaviors\n\n"@ + markdown_behavior_blocks(c@.behaviors)
        } else {
            Seq::empty()
        }),
{
    let ghost bs = c@.behaviors;
    if c.behaviors.len() > 0 {
        push_str(out, "## Related Behaviors\n\n");
        let ghost base = out@;
        let mut k: usize = 0;
        while k < c.behaviors.len()
            invariant
                k <= c.behaviors@.len(),
                bs == all_views(c.behaviors@),
                out@ == base + markdown_behavior_blocks(bs.take(k as int)),
            decreases c.behaviors.len() - k,
        {
            proof {
                assert(bs.take(k + 1).drop_last() =~= bs.take(k as int));
            }
            let b = &c.behaviors[k];
            push_str(out, "### ");
            push_str(out, b.name.as_str());
            push_str(out, "\n");
            push_str(out, "Implements: ");
            push_joined(out, &b.implements, ", ");
            push_str(out, "\n\n");
            k += 1;
        }
        assert(bs.take(bs.len() as int) =~= bs);
    }
}

/// The heading and status part of the Markdown form.
pub open spec fn markdown_head(c: CompiledContextView) -> Seq<char> {
    "# "@ + c.task_id + "\n\n"@ + (match c.task_status {
        Some(s) => "**Status**: "@ + s + "\n\n"@,
        None => Seq::empty(),
    })
}

/// Appends the heading and status part of the Markdown form.
fn push_markdown_head(out: &mut String, context: &CompiledContext)
    ensures
        final(out)@ == old(out)@ + markdown_head(context@),
{
    let ghost start = out@;
    push_str(out, "# ");
    push_str(out, context.task_id.as_str());
    push_str(out, "\n\n");
    match &context.task_status {
        Some(status) => {
            push_str(out, "**Status**: ");
            push_str(out, status.as_str());
            push_str(out, "\n\n");
        },
        None => {},
    }
    assert(out@ =~= start + markdown_head(context@));
}

/// Appends the plain Markdown form.
fn push_markdown(out: &mut String, context: &CompiledContext)
    ensures
        final(out)@ == old(out)@ + markdown_text(context@),
{
    let ghost start = out@;
    let ghost v = context@;
    push_markdown_head(out, context);
    let ghost a = out@;
    push_markdown_requirements(out, context);
    let ghost b = out@;
    push_markdown_concepts(out, context);
    let ghost c = out@;
    push_markdown_behaviors(out, context);
    assert(markdown_text(v) == markdown_head(v) + (if v.requirements.len() > 0 {
        "## Linked Requirements\n\n"@ + markdown_req_blocks(v.requirements)
    } else {
        Seq::empty()
    }) + (if v.concepts.len() > 0 {
        "## Domain Concepts\n\n"@ + markdown_concept_blocks(v.concepts)
    } else {
        Seq::empty()
    }) + (if v.behaviors.len() > 0 {
        "## Related Behaviors\n\n"@ + markdown_behavior_blocks(v.behaviors)
    } else {
        Seq::empty()
    }));
    assert(out@ =~= start + markdown_text(v));
}

/// Format as plain Markdown.
fn format_markdown(context: &CompiledContext) -> (out: String)
    ensures
        out@ == markdown_text(context@),
{
    let mut out = String::new();
    push_markdown(&mut out, context);
    out
}

/// Format as Windsurf rules: the Markdown form after a marker line.
fn format_windsurf(context: &CompiledContext) -> (out: String)
    ensures
        out@ == windsurf_text(context@),
{
    let mut out = String::new();
    push_str(&mut out, "<!-- Windsurf Rules -->\n\n");
    push_markdown(&mut out, context);
    out
}

/// Format as Cline rules.
fn format_cline(context: &CompiledContext) -> (out: String)
    ensures
        out@ == cline_text(context@),
{
    let mut out = String::new();
    push_str(&mut out, "# Task Context: ");
    push_str(&mut out, context.task_id.as_str());
    push_str(&mut out, "\n\n");
    push_str(&mut out, "## Instructions\n\n");
    push_str(&mut out, "When working on it, ensure:\n\n");
    let ghost base = out@;
    let ghost rs = context@.requirements;
    let mut k: usize = 0;
    while k < context.requirements.len()
        invariant
            k <= context.requirements@.len(),
            rs == all_views(context.requirements@),
            out@ == base + cline_req_lines(rs.take(k as int)),
        decreases context.requirements.len() - k,
    {
        proof {
            assert(rs.take(k + 1).drop_last() =~= rs.take(k as int));
        }
        push_str(&mut out, "- Requirement **");
        push_str(&mut out, context.requirements[k].id.as_str());
        push_str(&mut out, "** is satisfied\n");
        k += 1;
    }
    assert(rs.take(rs.len() as int) =~= rs);
    push_str(&mut out, "\n");
    push_markdown(&mut out, context);
    out
}

/// Format compiled context for output. JSON is produced where serialization
/// is available, outside this library.
pub fn format_context(context: &CompiledContext, format: OutputFormat) -> (out: String)
    requires
        format != OutputFormat::Json,
    ensures
        out@ == context_text(context@, format),
{
    match format {
        OutputFormat::Cursor => format_cursor(context),
        OutputFormat::Windsurf => format_windsurf(context),
        OutputFormat::Cline => format_cline(context),
        OutputFormat::Markdown => format_markdown(context),
        OutputFormat::Json => format_markdown(context),
    }
}

/// No concept that declares fields, and none of those fields, has a `.` in
/// its name.
pub open spec fn field_names_dotless(cs: Seq<SectionContent>) -> bool {
    forall|i: int, m: int|
        #![trigger cs[i], field_of(cs[i], m)]
        0 <= i < cs.len() && field_of(cs[i], m) is Some ==> !field_of(cs[i], m).unwrap().0.contains('.')
            && !field_of(cs[i], m).unwrap().1.contains('.')
}

/// `s` is the second segment of key `k` of `keys`, a field symbol whose key
/// starts with `n.`.
spec fn field_from_key(keys: Seq<Seq<char>>, syms: Map<Seq<char>, Symbol>, n: Seq<char>, s: Seq<char>, k: Seq<char>) -> bool {
    keys.contains(k) && syms[k].kind == SymbolKind::Field && (n + "."@).is_prefix_of(k) && s == second_segment(k)
}

/// Each field name listed for concept `n` comes from a field symbol whose
/// key starts with `n.`.
proof fn lemma_field_segment_source(keys: Seq<Seq<char>>, syms: Map<Seq<char>, Symbol>, n: Seq<char>, j: int)
    requires
        0 <= j < field_segments(keys, syms, n).len(),
    ensures
        exists|k: Seq<char>| field_from_key(keys, syms, n, field_segments(keys, syms, n)[j], k),
    decreases keys.len(),
{
    let rest = keys.drop_last();
    let prev = field_segments(rest, syms, n);
    let cur = field_segments(keys, syms, n);
    if j < prev.len() {
        lemma_field_segment_source(rest, syms, n, j);
        assert(cur[j] == prev[j]);
        let k = choose|k: Seq<char>| field_from_key(rest, syms, n, prev[j], k);
        let x = choose|x: int| 0 <= x < rest.len() && rest[x] == k;
        assert(keys[x] == k);
        assert(field_from_key(keys, syms, n, cur[j], k));
    } else {
        let k = keys.last();
        assert(keys[keys.len() - 1] == k);
        assert(field_from_key(keys, syms, n, cur[j], k));
    }
}

/// A key `c.fl` whose parts hold no `.` and that starts with `n.` belongs to
/// concept `n`, and its second segment is `fl`.
proof fn lemma_field_key_decoded(n: Seq<char>, c: Seq<char>, fl: Seq<char>)
    requires
        !c.contains('.'),
        !fl.contains('.'),
        (n + "."@).is_prefix_of(field_symbol_name(c, fl)),
    ensures
        n == c,
        second_segment(field_symbol_name(c, fl)) == fl,
{
    reveal_strlit(".");
    let k = field_symbol_name(c, fl);
    let dot = "."@;
    assert(dot == seq!['.']);
    assert forall|x: int| 0 <= x < k.len() && x != c.len() implies k[x] != '.' by {
        if x < c.len() {
            assert(k[x] == c[x]);
        } else {
            assert(k[x] == fl[x - c.len() - 1]);
        }
    }
    assert(k[c.len() as int] == '.');
    assert((n + dot)[n.len() as int] == '.');
    assert(n.len() == c.len());
    assert forall|x: int| 0 <= x < n.len() implies n[x] == c[x] by {
        assert((n + dot)[x] == k[x]);
    }
    assert(n =~= c);
    let p = c.len() as int;
    assert(k.subrange(p, p + 1) =~= dot);
    assert(occurs_at(k, dot, p));
    assert forall|i: int| #[trigger] occurs_at(k, dot, i) implies i == p by {
        assert(k.subrange(i, i + 1)[0] == k[i]);
    }
    let q = choose|i: int| first_occurrence(k, dot, i);
    assert(first_occurrence(k, dot, p));
    assert(find_spec(k, dot) == Some(p));
    assert(!(exists|i: int| p + 1 <= i && occurs_at(k, dot, i)));
    assert(find_at_or_after(k, dot, p + 1) is None);
    assert(k.subrange(p + 1, k.len() as int) =~= fl);
}

proof fn lemma_concept_list(names: Seq<Seq<char>>, t: SymbolTable)
    ensures
        concept_list(names, t).len() == names.len(),
        forall|i: int|
            0 <= i < names.len() ==> #[trigger] concept_list(names, t)[i] == (ConceptContextView {
                name: names[i],
                fields: field_segments(t.symbols.key_seq(), t.symbols@, names[i]),
            }),
    decreases names.len(),
{
    if names.len() > 0 {
        lemma_concept_list(names.drop_last(), t);
        assert forall|i: int| 0 <= i < names.len() implies #[trigger] concept_list(names, t)[i] == (ConceptContextView {
            name: names[i],
            fields: field_segments(t.symbols.key_seq(), t.symbols@, names[i]),
        }) by {
            if i < names.len() - 1 {
                assert(names.drop_last()[i] == names[i]);
            }
        }
    }
}

/// In the context compiled for any task of a file (read from the file's
/// symbol table), every field listed for a concept is a field that this very
/// concept declares in the file: no field of another concept is listed
/// under it. Names with a `.` in them are left aside, as field symbols are
/// keyed `Concept.field`.
pub proof fn compiled_concept_fields_are_declared(
    f: SourceFile,
    t: SymbolTable,
    g: TraceabilityGraph,
    task_id: Seq<char>,
    with_related: bool,
)
    requires
        t@ == symbols_of(f),
        field_names_dotless(all_contents(f)),
    ensures
        context_from(task_id, with_related, t, g) matches Some(ctx) ==> forall|i: int, j: int|
            0 <= i < ctx.concepts.len() && 0 <= j < ctx.concepts[i].fields.len() ==> declares_field(
                all_contents(f),
                ctx.concepts[i].name,
                #[trigger] ctx.concepts[i].fields[j],
            ),
{
    if let Some(ctx) = context_from(task_id, with_related, t, g) {
        let names = t.concepts.key_seq();
        let keys = t.symbols.key_seq();
        let cs = all_contents(f);
        lemma_concept_list(names, t);
        field_symbols_are_declared_fields(f);
        assert forall|i: int, j: int|
            0 <= i < ctx.concepts.len() && 0 <= j < ctx.concepts[i].fields.len() implies declares_field(
                cs,
                ctx.concepts[i].name,
                #[trigger] ctx.concepts[i].fields[j],
            ) by {
            let n = names[i];
            assert(ctx.concepts[i].name == n);
            let s = ctx.concepts[i].fields[j];
            assert(s == field_segments(keys, t.symbols@, n)[j]);
            lemma_field_segment_source(keys, t.symbols@, n, j);
            let k = choose|k: Seq<char>| field_from_key(keys, t.symbols@, n, s, k);
            let x = choose|x: int| 0 <= x < keys.len() && keys[x] == k;
            assert(has_key(t.symbols.entry_seq(), k));
            assert(t.symbols@.contains_key(k));
            assert(symbols_of(f).symbols.contains_key(k) && symbols_of(f).symbols[k].kind == SymbolKind::Field);
            let (c, fl) = choose|c: Seq<char>, fl: Seq<char>|
                #![trigger field_symbol_name(c, fl)]
                declares_field(cs, c, fl) && k == field_symbol_name(c, fl);
            let (a, m) = choose|a: int, m: int| 0 <= a < cs.len() && field_of(cs[a], m) == Some((c, fl));
            assert(!c.contains('.') && !fl.contains('.'));
            lemma_field_key_decoded(n, c, fl);
        }
    }
}

/// A field symbol whose key starts with `n.` gives its second segment to the
/// field names of concept `n`.
proof fn lemma_field_segments_complete(keys: Seq<Seq<char>>, syms: Map<Seq<char>, Symbol>, n: Seq<char>, k: Seq<char>)
    requires
        keys.contains(k),
        syms[k].kind == SymbolKind::Field,
        (n + "."@).is_prefix_of(k),
    ensures
        field_segments(keys, syms, n).contains(second_segment(k)),
    decreases keys.len(),
{
    let rest = keys.drop_last();
    let prev = field_segments(rest, syms, n);
    let cur = field_segments(keys, syms, n);
    if keys.last() == k {
        assert(cur[cur.len() - 1] == second_segment(k));
    } else {
        let x = choose|x: int| 0 <= x < keys.len() && keys[x] == k;
        assert(rest[x] == k);
        lemma_field_segments_complete(rest, syms, n, k);
        let y = choose|y: int| 0 <= y < prev.len() && prev[y] == second_segment(k);
        assert(cur[y] == prev[y]);
    }
}

/// In the context compiled for any task of a file, every field that a
/// concept declares in the file is listed under that concept (where no name
/// of the file holds a `.`). With `compiled_concept_fields_are_declared`, the
/// fields listed for a concept are exactly those it declares.
pub proof fn compiled_concept_fields_are_complete(
    f: SourceFile,
    t: SymbolTable,
    g: TraceabilityGraph,
    task_id: Seq<char>,
    with_related: bool,
)
    requires
        t@ == symbols_of(f),
        symbol_names_dotless(all_contents(f)),
    ensures
        context_from(task_id, with_related, t, g) matches Some(ctx) ==> forall|i: int, fl: Seq<char>|
            0 <= i < ctx.concepts.len() && #[trigger] declares_field(all_contents(f), ctx.concepts[i].name, fl)
                ==> ctx.concepts[i].fields.contains(fl),
{
    reveal_strlit(".");
    if let Some(ctx) = context_from(task_id, with_related, t, g) {
        let names = t.concepts.key_seq();
        let keys = t.symbols.key_seq();
        let cs = all_contents(f);
        lemma_concept_list(names, t);
        assert forall|i: int, fl: Seq<char>|
            0 <= i < ctx.concepts.len() && #[trigger] declares_field(cs, ctx.concepts[i].name, fl) implies ctx.concepts[i].fields.contains(
                fl,
            ) by {
            let n = names[i];
            assert(ctx.concepts[i].name == n);
            let k = field_symbol_name(n, fl);
            declared_fields_have_symbols(f, n, fl);
            assert(t.symbols@.contains_key(k));
            let e = t.symbols.entry_seq();
            assert(has_key(e, k));
            let x = choose|x: int| 0 <= x < e.len() && e[x].0@ == k;
            assert(keys[x] == k);
            assert(keys.contains(k));
            let (a, m) = choose|a: int, m: int| 0 <= a < cs.len() && field_of(cs[a], m) == Some((n, fl));
            assert(own_symbol_name(cs[a]) is Some);
            assert(!n.contains('.') && !fl.contains('.'));
            assert((n + "."@).is_prefix_of(k)) by {
                assert("."@ == seq!['.']);
                assert(k.subrange(0, n.len() + 1 as int) =~= n + "."@);
            }
            lemma_field_key_decoded(n, n, fl);
            lemma_field_segments_complete(keys, t.symbols@, n, k);
        }
    }
}

} // verus!
