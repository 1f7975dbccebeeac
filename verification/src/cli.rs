//! What the `topos` command line computes: merging extracted items into an
//! existing specification, the traceability report, and the evidence that
//! tasks gather from version control.
use vstd::prelude::*;

use crate::ast::{Task, TaskField, TaskFieldKind};
use crate::strategy::ComparisonStrategy;
use crate::strmap::StrMap;
use crate::symbols::{Symbol, SymbolTable};
use crate::text::{
    chars_of, concat_map, find, find_spec, lemma_concat_map_push, lines_of, push_str,
    seq_contains, source_lines, starts_with, string_from_range, trim, trim_end, views,
};
use crate::traceability::{set_items, TraceabilityGraph};

verus! {

// ============================================================================
// Merging extracted items into a specification
// ============================================================================

/// A line starts an item: a concept or a behavior.
pub open spec fn starts_item(l: Seq<char>) -> bool {
    "Concept "@.is_prefix_of(l) || "Behavior "@.is_prefix_of(l)
}

/// The items gathered from the lines `ls`: those finished, the one being
/// read, and whether one is being read.
pub open spec fn items_state(ls: Seq<Seq<char>>) -> (Seq<Seq<char>>, Seq<char>, bool)
    decreases ls.len(),
{
    if ls.len() == 0 {
        (Seq::empty(), Seq::empty(), false)
    } else {
        let (items, current, in_item) = items_state(ls.drop_last());
        let l = ls.last();
        if starts_item(l) {
            (
                if in_item && current.len() > 0 {
                    items.push(trim_end(current))
                } else {
                    items
                },
                l,
                true,
            )
        } else if in_item {
            (items, current + "\n"@ + l, true)
        } else {
            (items, current, in_item)
        }
    }
}

/// The items of a section: each `Concept ` or `Behavior ` line with the
/// lines after it up to the next such line, trimmed at the end.
pub open spec fn section_items(section: Seq<char>) -> Seq<Seq<char>> {
    let (items, current, in_item) = items_state(lines_of(section));
    if in_item && current.len() > 0 {
        items.push(trim_end(current))
    } else {
        items
    }
}

/// A text trimmed at the end.
fn trimmed_end(s: &String) -> (r: String)
    ensures
        r@ == trim_end(s@),
{
    let v = chars_of(s.as_str());
    let mut j: usize = v.len();
    assert(v@.take(j as int) =~= v@);
    while j > 0 && crate::text::char_is_whitespace(v[j - 1])
        invariant
            j <= v@.len(),
            trim_end(v@) == trim_end(v@.take(j as int)),
        decreases j,
    {
        proof {
            assert(v@.take(j as int).drop_last() =~= v@.take(j - 1));
            assert(v@.take(j as int).last() == v@[j - 1]);
        }
        j -= 1;
    }
    proof {
        assert(v@.take(v@.len() as int) =~= v@);
    }
    let r = string_from_range(&v, 0, j);
    assert(r@ =~= v@.take(j as int));
    r
}

/// Extract individual items (Concept X:, Behavior Y:) from a section.
pub fn extract_items_from_section(section: &str) -> (items: Vec<String>)
    ensures
        views(items@) == section_items(section@),
{
    let ls = source_lines(section);
    let ghost lv = views(ls@);
    let mut items: Vec<String> = Vec::new();
    let mut current = String::new();
    let mut in_item = false;
    let mut i: usize = 0;
    assert(lv.take(0) =~= Seq::<Seq<char>>::empty());
    while i < ls.len()
        invariant
            i <= ls@.len(),
            lv == views(ls@),
            lv == lines_of(section@),
            items_state(lv.take(i as int)) == (views(items@), current@, in_item),
        decreases ls.len() - i,
    {
        proof {
            assert(lv.take(i + 1).drop_last() =~= lv.take(i as int));
            assert(lv.take(i + 1).last() == lv[i as int]);
        }
        let line = &ls[i];
        assert(lv[i as int] == line@);
        if starts_with(line.as_str(), "Concept ") || starts_with(line.as_str(), "Behavior ") {
            if in_item && chars_of(current.as_str()).len() > 0 {
                let t = trimmed_end(&current);
                let ghost i0 = items@;
                items.push(t);
                assert(views(items@) =~= views(i0).push(t@));
            }
            current = line.clone();
            in_item = true;
        } else if in_item {
            push_str(&mut current, "\n");
            push_str(&mut current, line.as_str());
        }
        i += 1;
    }
    assert(lv.take(lv.len() as int) =~= lv);
    if in_item && chars_of(current.as_str()).len() > 0 {
        let t = trimmed_end(&current);
        let ghost i0 = items@;
        items.push(t);
        assert(views(items@) =~= views(i0).push(t@));
    }
    items
}

/// The items of `items` that `text` does not contain, in order.
pub open spec fn absent_items(items: Seq<Seq<char>>, text: Seq<char>) -> Seq<Seq<char>>
    decreases items.len(),
{
    if items.len() == 0 {
        Seq::empty()
    } else if seq_contains(text, items.last()) {
        absent_items(items.drop_last(), text)
    } else {
        absent_items(items.drop_last(), text).push(items.last())
    }
}

/// Where the section that starts at `start` of `s` ends: at the next
/// `\n# `, else at the end.
pub open spec fn section_end(s: Seq<char>, start: int) -> int {
    match find_spec(s.skip(start), "\n# "@) {
        Some(i) => start + i,
        None => s.len() as int,
    }
}

/// `result` with the items of `generated`'s section headed `header` merged
/// in: the items its own section lacks go at the end of that section, or
/// the whole section goes at the end when `result` has none.
pub open spec fn merge_section(result: Seq<char>, generated: Seq<char>, header: Seq<char>) -> Seq<char> {
    match find_spec(generated, header) {
        None => result,
        Some(cs) => {
            let section = generated.subrange(cs, section_end(generated, cs));
            match find_spec(result, header) {
                Some(ec) => {
                    let ee = section_end(result, ec);
                    let add = absent_items(section_items(section), result.subrange(ec, ee));
                    result.take(ee) + concat_map(add, |c: Seq<char>| "\n"@ + c) + result.skip(ee)
                },
                None => result + "\n\n"@ + section,
            }
        },
    }
}

/// What merging generated items into an existing specification gives:
/// concepts first, then behaviors.
pub open spec fn merged_spec(existing: Seq<char>, generated: Seq<char>) -> Seq<char> {
    merge_section(merge_section(existing, generated, "# Concepts"@), generated, "# Behaviors"@)
}

/// The end of the section that starts at `start` of `v`.
fn find_section_end(v: &Vec<char>, start: usize) -> (e: usize)
    requires
        start <= v@.len(),
    ensures
        e == section_end(v@, start as int),
        start <= e <= v@.len(),
{
    proof {
        reveal_strlit("\n# ");
    }
    let tail_s = string_from_range(v, start, v.len());
    let tail = chars_of(tail_s.as_str());
    assert(tail@ =~= v@.skip(start as int));
    let pat: Vec<char> = vec!['\n', '#', ' '];
    assert(pat@ =~= "\n# "@);
    match find(&tail, &pat) {
        Some(i) => {
            assert(i + 3 <= tail@.len());
            start + i
        },
        None => v.len(),
    }
}

/// The items of `items` that `text` does not contain, in order.
fn absent_from(items: &Vec<String>, text: &str) -> (r: Vec<String>)
    ensures
        views(r@) == absent_items(views(items@), text@),
{
    let ghost iv = views(items@);
    let mut r: Vec<String> = Vec::new();
    let mut i: usize = 0;
    assert(iv.take(0) =~= Seq::<Seq<char>>::empty());
    while i < items.len()
        invariant
            i <= items@.len(),
            iv == views(items@),
            views(r@) == absent_items(iv.take(i as int), text@),
        decreases items.len() - i,
    {
        proof {
            assert(iv.take(i + 1).drop_last() =~= iv.take(i as int));
            assert(iv.take(i + 1).last() == iv[i as int]);
        }
        if !crate::text::contains(text, items[i].as_str()) {
            let ghost r0 = r@;
            r.push(items[i].clone());
            assert(views(r@) =~= views(r0).push(iv[i as int]));
        }
        i += 1;
    }
    assert(iv.take(iv.len() as int) =~= iv);
    r
}

/// Merge one section of `generated` into `result`.
fn merge_one(result: &String, generated: &str, header: &str) -> (r: String)
    ensures
        r@ == merge_section(result@, generated@, header@),
{
    let gv = chars_of(generated);
    let hv = chars_of(header);
    match find(&gv, &hv) {
        None => result.clone(),
        Some(cs) => {
            let ce = find_section_end(&gv, cs);
            let section = string_from_range(&gv, cs, ce);
            let new_items = extract_items_from_section(section.as_str());
            let rv = chars_of(result.as_str());
            match find(&rv, &hv) {
                Some(ec) => {
                    let ee = find_section_end(&rv, ec);
                    let existing_text = string_from_range(&rv, ec, ee);
                    let add = absent_from(&new_items, existing_text.as_str());
                    let mut out = string_from_range(&rv, 0, ee);
                    assert(out@ =~= result@.take(ee as int));
                    let ghost av = views(add@);
                    let ghost head = out@;
                    let mut k: usize = 0;
                    while k < add.len()
                        invariant
                            k <= add@.len(),
                            av == views(add@),
                            out@ == head + concat_map(av.take(k as int), |c: Seq<char>| "\n"@ + c),
                        decreases add.len() - k,
                    {
                        proof {
                            lemma_concat_map_push(av, |c: Seq<char>| "\n"@ + c, k as int);
                        }
                        push_str(&mut out, "\n");
                        push_str(&mut out, add[k].as_str());
                        k += 1;
                    }
                    assert(av.take(av.len() as int) =~= av);
                    let rest = string_from_range(&rv, ee, rv.len());
                    assert(rest@ =~= result@.skip(ee as int));
                    push_str(&mut out, rest.as_str());
                    out
                },
                None => {
                    let mut out = result.clone();
                    push_str(&mut out, "\n\n");
                    push_str(&mut out, section.as_str());
                    out
                },
            }
        },
    }
}

/// Merge generated spec content into an existing spec: the concepts and
/// behaviors of the generated spec that the existing one lacks are added
/// to its sections (or their sections are appended).
pub fn merge_specs(existing: &str, generated: &str) -> (r: String)
    ensures
        r@ == merged_spec(existing@, generated@),
{
    let start = existing.to_owned();
    let with_concepts = merge_one(&start, generated, "# Concepts");
    merge_one(&with_concepts, generated, "# Behaviors")
}

// ============================================================================
// The traceability report
// ============================================================================

/// A requirement with the tasks and behaviors linked to it.
#[derive(Debug)]
pub struct RequirementTrace {
    pub id: String,
    pub tasks: Vec<String>,
    pub behaviors: Vec<String>,
}

/// A task with the requirements it is linked to.
#[derive(Debug)]
pub struct TaskTrace {
    pub id: String,
    pub requirements: Vec<String>,
}

/// What the traceability report lists.
#[derive(Debug)]
pub struct TraceReport {
    /// The requirements, in table order.
    pub requirements: Vec<RequirementTrace>,
    /// The tasks, in table order.
    pub tasks: Vec<TaskTrace>,
    /// The concept names, in table order.
    pub concepts: Vec<String>,
    /// The behavior names, in table order.
    pub behaviors: Vec<String>,
    /// The requirements no task is linked to.
    pub untasked: Vec<String>,
    /// The requirements no behavior implements.
    pub uncovered: Vec<String>,
}

/// The keys of a map, as strings.
fn keys_of(m: &StrMap<Symbol>) -> (r: Vec<String>)
    ensures
        views(r@) == m.key_seq(),
{
    let ghost keys = m.key_seq();
    let n = m.len();
    let mut r: Vec<String> = Vec::new();
    let mut i: usize = 0;
    while i < n
        invariant
            i <= n,
            n == m.entry_seq().len(),
            keys == m.key_seq(),
            views(r@) == keys.take(i as int),
        decreases n - i,
    {
        let k = m.key_at(i);
        let ghost r0 = r@;
        r.push(k.clone());
        assert(views(r@) =~= views(r0).push(k@));
        assert(keys.take(i + 1) =~= keys.take(i as int).push(keys[i as int]));
        i += 1;
    }
    assert(keys.take(n as int) =~= keys);
    r
}

/// Build the traceability report: each requirement with its tasks and
/// behaviors, each task with its requirements, the concepts and behaviors,
/// and the requirements without tasks or without behaviors.
pub fn trace_report(symbols: &SymbolTable, trace: &TraceabilityGraph) -> (r: TraceReport)
    ensures
        r.requirements@.len() == symbols.requirements.key_seq().len(),
        forall|i: int|
            0 <= i < r.requirements@.len() ==> {
                let x = #[trigger] r.requirements@[i];
                &&& x.id@ == symbols.requirements.key_seq()[i]
                &&& views(x.tasks@) == set_items(trace.req_to_tasks, x.id@)
                &&& views(x.behaviors@) == set_items(trace.req_to_behaviors, x.id@)
            },
        r.tasks@.len() == symbols.tasks.key_seq().len(),
        forall|i: int|
            0 <= i < r.tasks@.len() ==> {
                let x = #[trigger] r.tasks@[i];
                &&& x.id@ == symbols.tasks.key_seq()[i]
                &&& views(x.requirements@) == set_items(trace.task_to_reqs, x.id@)
            },
        views(r.concepts@) == symbols.concepts.key_seq(),
        views(r.behaviors@) == symbols.behaviors.key_seq(),
        crate::strmap::distinct_strings(r.untasked@),
        crate::strmap::distinct_strings(r.uncovered@),
        forall|x: Seq<char>|
            #![trigger crate::strmap::string_set(r.untasked@).contains(x)]
            crate::strmap::string_set(r.untasked@).contains(x) <==> (trace@.nodes.contains_key(x)
                && trace@.nodes[x].kind == crate::traceability::TraceNodeKind::Requirement
                && !trace@.req_to_tasks.contains_key(x)),
        forall|x: Seq<char>|
            #![trigger crate::strmap::string_set(r.uncovered@).contains(x)]
            crate::strmap::string_set(r.uncovered@).contains(x) <==> (trace@.nodes.contains_key(x)
                && trace@.nodes[x].kind == crate::traceability::TraceNodeKind::Requirement
                && !trace@.req_to_behaviors.contains_key(x)),
{
    let ghost rk = symbols.requirements.key_seq();
    let n = symbols.requirements.len();
    let mut requirements: Vec<RequirementTrace> = Vec::new();
    let mut i: usize = 0;
    while i < n
        invariant
            i <= n,
            n == symbols.requirements.entry_seq().len(),
            rk == symbols.requirements.key_seq(),
            requirements@.len() == i,
            forall|j: int|
                0 <= j < i ==> {
                    let x = #[trigger] requirements@[j];
                    &&& x.id@ == rk[j]
                    &&& views(x.tasks@) == set_items(trace.req_to_tasks, x.id@)
                    &&& views(x.behaviors@) == set_items(trace.req_to_behaviors, x.id@)
                },
        decreases n - i,
    {
        let id = symbols.requirements.key_at(i);
        let tasks = trace.tasks_for_req(id.as_str());
        let behaviors = trace.behaviors_for_req(id.as_str());
        requirements.push(RequirementTrace { id: id.clone(), tasks, behaviors });
        i += 1;
    }
    let ghost tk = symbols.tasks.key_seq();
    let m = symbols.tasks.len();
    let mut tasks: Vec<TaskTrace> = Vec::new();
    let mut k: usize = 0;
    while k < m
        invariant
            k <= m,
            m == symbols.tasks.entry_seq().len(),
            tk == symbols.tasks.key_seq(),
            tasks@.len() == k,
            forall|j: int|
                0 <= j < k ==> {
                    let x = #[trigger] tasks@[j];
                    &&& x.id@ == tk[j]
                    &&& views(x.requirements@) == set_items(trace.task_to_reqs, x.id@)
                },
        decreases m - k,
    {
        let id = symbols.tasks.key_at(k);
        let reqs = trace.reqs_for_task(id.as_str());
        tasks.push(TaskTrace { id: id.clone(), requirements: reqs });
        k += 1;
    }
    TraceReport {
        requirements,
        tasks,
        concepts: keys_of(&symbols.concepts),
        behaviors: keys_of(&symbols.behaviors),
        untasked: trace.untasked_requirements(),
        uncovered: trace.uncovered_requirements(),
    }
}

/// The number of errors among a file's diagnostics.
pub fn error_count(diagnostics: &Vec<crate::legacy::Diagnostic>) -> (n: usize)
    ensures
        n == diagnostics@.filter(
            |d: crate::legacy::Diagnostic| d.severity == crate::legacy::LegacySeverity::Error,
        ).len(),
{
    let ghost p = |d: crate::legacy::Diagnostic| d.severity == crate::legacy::LegacySeverity::Error;
    let mut n: usize = 0;
    let mut i: usize = 0;
    while i < diagnostics.len()
        invariant
            i <= diagnostics@.len(),
            p == (|d: crate::legacy::Diagnostic| d.severity == crate::legacy::LegacySeverity::Error),
            n == diagnostics@.take(i as int).filter(p).len(),
            n <= i,
        decreases diagnostics.len() - i,
    {
        proof {
            crate::text::lemma_filter_take_push(diagnostics@, p, i as int);
        }
        if diagnostics[i].severity == crate::legacy::LegacySeverity::Error {
            n = n + 1;
        }
        i += 1;
    }
    assert(diagnostics@.take(diagnostics@.len() as int) =~= diagnostics@);
    n
}

// ============================================================================
// Drift, format and gather decisions
// ============================================================================

/// The comparison strategy the `drift` flags ask for: structural only,
/// semantic only, or both.
pub fn strategy_for_flags(structural: bool, semantic: bool) -> (s: ComparisonStrategy)
    ensures
        s == if structural {
            ComparisonStrategy::StructuralOnly
        } else if semantic {
            ComparisonStrategy::Semantic
        } else {
            ComparisonStrategy::Hybrid
        },
{
    if structural {
        ComparisonStrategy::StructuralOnly
    } else if semantic {
        ComparisonStrategy::Semantic
    } else {
        ComparisonStrategy::Hybrid
    }
}

/// What formatting a file comes to.
#[derive(Debug, Clone, Copy, PartialEq, Eq, Structural)]
pub enum FormatOutcome {
    /// In check mode, the file would change.
    WouldReformat,
    /// In check mode, the file is formatted already.
    AlreadyFormatted,
    /// The file was rewritten.
    Reformatted,
    /// The file was formatted already and is left as it is.
    Unchanged,
}

/// What formatting a file comes to, from its text and its formatted text.
pub fn format_outcome(formatted: &str, content: &str, check: bool) -> (o: FormatOutcome)
    ensures
        o == if check {
            if formatted@ != content@ {
                FormatOutcome::WouldReformat
            } else {
                FormatOutcome::AlreadyFormatted
            }
        } else if formatted@ != content@ {
            FormatOutcome::Reformatted
        } else {
            FormatOutcome::Unchanged
        },
{
    let differs = !crate::text::str_eq(formatted, content);
    if check {
        if differs {
            FormatOutcome::WouldReformat
        } else {
            FormatOutcome::AlreadyFormatted
        }
    } else if differs {
        FormatOutcome::Reformatted
    } else {
        FormatOutcome::Unchanged
    }
}

/// A pattern that names several paths: it holds `*`, `?` or `[`.
pub fn is_glob_pattern(pattern: &str) -> (b: bool)
    ensures
        b == (pattern@.contains('*') || pattern@.contains('?') || pattern@.contains('[')),
{
    crate::text::contains_char(pattern, '*') || crate::text::contains_char(pattern, '?')
        || crate::text::contains_char(pattern, '[')
}

/// The value of the first field of kind `k`, trimmed.
pub open spec fn field_value(fields: Seq<TaskField>, k: TaskFieldKind) -> Option<Seq<char>>
    decreases fields.len(),
{
    if fields.len() == 0 {
        None
    } else if fields[0].kind == k {
        Some(trim(fields[0].value.text@))
    } else {
        field_value(fields.drop_first(), k)
    }
}

/// The value of the first field of kind `k`, trimmed.
fn first_field_value(task: &Task, k: TaskFieldKind) -> (r: Option<String>)
    ensures
        match r {
            Some(v) => field_value(task.fields@, k) == Some(v@),
            None => field_value(task.fields@, k) is None,
        },
{
    let ghost fs = task.fields@;
    let mut i: usize = 0;
    assert(fs.skip(0) =~= fs);
    while i < task.fields.len()
        invariant
            i <= fs.len(),
            fs == task.fields@,
            field_value(fs, k) == field_value(fs.skip(i as int), k),
        decreases task.fields.len() - i,
    {
        assert(fs.skip(i as int)[0] == fs[i as int]);
        assert(fs.skip(i as int).drop_first() =~= fs.skip(i + 1));
        if task.fields[i].kind == k {
            return Some(crate::text::trimmed(task.fields[i].value.text.as_str()));
        }
        i += 1;
    }
    None
}

/// The files a task names: its `file:` value, then its `tests:` value.
pub fn extract_file_paths(task: &Task) -> (paths: Vec<String>)
    ensures
        views(paths@) == (match field_value(task.fields@, TaskFieldKind::File) {
            Some(f) => seq![f],
            None => Seq::empty(),
        }) + (match field_value(task.fields@, TaskFieldKind::Tests) {
            Some(t) => seq![t],
            None => Seq::empty(),
        }),
{
    let mut paths: Vec<String> = Vec::new();
    match first_field_value(task, TaskFieldKind::File) {
        Some(f) => paths.push(f),
        None => {},
    }
    let ghost p1 = views(paths@);
    match first_field_value(task, TaskFieldKind::Tests) {
        Some(t) => paths.push(t),
        None => {},
    }
    assert(views(paths@) =~= (match field_value(task.fields@, TaskFieldKind::File) {
        Some(f) => seq![f],
        None => Seq::<Seq<char>>::empty(),
    }) + (match field_value(task.fields@, TaskFieldKind::Tests) {
        Some(t) => seq![t],
        None => Seq::<Seq<char>>::empty(),
    }));
    paths
}

/// The latest commit that touched a file.
#[derive(Debug)]
pub struct CommitInfo {
    /// The commit's short ID.
    pub short_id: String,
    /// The file it touched.
    pub file_path: String,
}

/// The evidence gathered for a task: the latest commit found and the files.
#[derive(Debug)]
pub struct GatheredEvidence {
    pub latest_commit: Option<String>,
    pub files_updated: Vec<String>,
}

impl GatheredEvidence {
    /// No evidence yet.
    pub fn new() -> (e: Self)
        ensures
            e.latest_commit is None,
            e.files_updated@.len() == 0,
    {
        GatheredEvidence { latest_commit: None, files_updated: Vec::new() }
    }

    /// Add a commit: the first one added is kept as the latest; its file
    /// joins the files updated.
    pub fn add_commit(&mut self, info: CommitInfo)
        ensures
            final(self).latest_commit == match old(self).latest_commit {
                Some(c) => Some(c),
                None => Some(info.short_id),
            },
            final(self).files_updated@ == old(self).files_updated@.push(info.file_path),
    {
        if self.latest_commit.is_none() {
            self.latest_commit = Some(info.short_id);
        }
        self.files_updated.push(info.file_path);
    }

    /// No commit was added.
    pub fn is_empty(&self) -> (b: bool)
        ensures
            b == (self.latest_commit is None),
    {
        self.latest_commit.is_none()
    }
}

impl Default for GatheredEvidence {
    fn default() -> (e: Self)
        ensures
            e.latest_commit is None,
            e.files_updated@.len() == 0,
    {
        GatheredEvidence::new()
    }
}

/// The short ID of a commit: the first seven characters of its full ID.
pub fn short_commit_id(full: &str) -> (r: String)
    requires
        full@.len() >= 7,
    ensures
        r@ == full@.take(7),
{
    let v = chars_of(full);
    let r = string_from_range(&v, 0, 7);
    assert(r@ =~= full@.take(7));
    r
}

/// Whether the task `id` is one evidence is gathered for: any task, or the
/// one asked for.
pub fn gathers_for(id: &str, target: Option<&str>) -> (b: bool)
    ensures
        b == match target {
            Some(t) => id@ == t@,
            None => true,
        },
{
    match target {
        Some(t) => crate::text::str_eq(id, t),
        None => true,
    }
}

/// How gathering evidence ends.
#[derive(Debug, Clone, Copy, PartialEq, Eq, Structural)]
pub enum GatherOutcome {
    /// The task asked for was not found or names no files.
    TaskNotFound,
    /// No task names files.
    NoTasks,
    /// In a dry run, this many tasks would be updated.
    WouldUpdate(usize),
    /// This many tasks were updated.
    Updated(usize),
}

/// How gathering evidence ends, from the number of tasks with evidence.
pub fn gather_outcome(total: usize, task_asked: bool, dry_run: bool) -> (o: GatherOutcome)
    ensures
        o == if total == 0 {
            if task_asked {
                GatherOutcome::TaskNotFound
            } else {
                GatherOutcome::NoTasks
            }
        } else if dry_run {
            GatherOutcome::WouldUpdate(total)
        } else {
            GatherOutcome::Updated(total)
        },
{
    if total == 0 {
        if task_asked {
            GatherOutcome::TaskNotFound
        } else {
            GatherOutcome::NoTasks
        }
    } else if dry_run {
        GatherOutcome::WouldUpdate(total)
    } else {
        GatherOutcome::Updated(total)
    }
}

} // verus!
