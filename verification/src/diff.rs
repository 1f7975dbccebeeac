//! Structural diffing of Topos specifications: which requirements, concepts,
//! behaviors and tasks were added, removed or changed between two files.
use vstd::prelude::*;

use crate::ast::{all_contents, contents_of, Behavior, Concept, EarsClause, Field, Requirement, SectionContent, SourceFile, Task, TaskField, TaskFieldKind};
use crate::text::{decimal, join, push_decimal, push_joined, push_str, str_eq, views};

verus! {

// ============================================================================
// Report types
// ============================================================================

/// Difference in a requirement.
#[derive(Debug, Clone)]
pub struct RequirementDiff {
    /// The requirement ID.
    pub id: String,
    /// Description of changes.
    pub changes: Vec<String>,
}

/// Difference in a concept.
#[derive(Debug, Clone)]
pub struct ConceptDiff {
    /// The concept name.
    pub name: String,
    /// Fields that were added.
    pub added_fields: Vec<String>,
    /// Fields that were removed.
    pub removed_fields: Vec<String>,
    /// Fields that were modified.
    pub modified_fields: Vec<String>,
}

/// Difference in a behavior.
#[derive(Debug, Clone)]
pub struct BehaviorDiff {
    /// The behavior name.
    pub name: String,
    /// Description of changes.
    pub changes: Vec<String>,
}

/// Difference in a task.
#[derive(Debug, Clone)]
pub struct TaskDiff {
    /// The task ID.
    pub id: String,
    /// Description of changes.
    pub changes: Vec<String>,
}

/// A named element and the list of its changes, strings taken by their views.
pub struct ChangesView {
    pub key: Seq<char>,
    pub changes: Seq<Seq<char>>,
}

/// A concept difference, strings taken by their views.
pub struct ConceptDiffView {
    pub name: Seq<char>,
    pub added_fields: Seq<Seq<char>>,
    pub removed_fields: Seq<Seq<char>>,
    pub modified_fields: Seq<Seq<char>>,
}

impl View for RequirementDiff {
    type V = ChangesView;

    open spec fn view(&self) -> ChangesView {
        ChangesView { key: self.id@, changes: views(self.changes@) }
    }
}

impl View for BehaviorDiff {
    type V = ChangesView;

    open spec fn view(&self) -> ChangesView {
        ChangesView { key: self.name@, changes: views(self.changes@) }
    }
}

impl View for TaskDiff {
    type V = ChangesView;

    open spec fn view(&self) -> ChangesView {
        ChangesView { key: self.id@, changes: views(self.changes@) }
    }
}

impl View for ConceptDiff {
    type V = ConceptDiffView;

    open spec fn view(&self) -> ConceptDiffView {
        ConceptDiffView {
            name: self.name@,
            added_fields: views(self.added_fields@),
            removed_fields: views(self.removed_fields@),
            modified_fields: views(self.modified_fields@),
        }
    }
}

/// A report of differences between two specifications.
#[derive(Debug, Clone)]
pub struct DiffReport {
    /// Requirements that were added.
    pub added_requirements: Vec<String>,
    /// Requirements that were removed.
    pub removed_requirements: Vec<String>,
    /// Requirements that were modified.
    pub modified_requirements: Vec<RequirementDiff>,
    /// Concepts that were added.
    pub added_concepts: Vec<String>,
    /// Concepts that were removed.
    pub removed_concepts: Vec<String>,
    /// Concepts that were modified.
    pub modified_concepts: Vec<ConceptDiff>,
    /// Behaviors that were added.
    pub added_behaviors: Vec<String>,
    /// Behaviors that were removed.
    pub removed_behaviors: Vec<String>,
    /// Behaviors that were modified.
    pub modified_behaviors: Vec<BehaviorDiff>,
    /// Tasks that were added.
    pub added_tasks: Vec<String>,
    /// Tasks that were removed.
    pub removed_tasks: Vec<String>,
    /// Tasks that were modified.
    pub modified_tasks: Vec<TaskDiff>,
}

/// The number of changes a report lists.
pub open spec fn total_changes(r: DiffReport) -> nat {
    r.added_requirements@.len() + r.removed_requirements@.len() + r.modified_requirements@.len()
        + r.added_concepts@.len() + r.removed_concepts@.len() + r.modified_concepts@.len()
        + r.added_behaviors@.len() + r.removed_behaviors@.len() + r.modified_behaviors@.len()
        + r.added_tasks@.len() + r.removed_tasks@.len() + r.modified_tasks@.len()
}

/// The report lists nothing.
pub open spec fn report_empty(r: DiffReport) -> bool {
    &&& r.added_requirements@.len() == 0
    &&& r.removed_requirements@.len() == 0
    &&& r.modified_requirements@.len() == 0
    &&& r.added_concepts@.len() == 0
    &&& r.removed_concepts@.len() == 0
    &&& r.modified_concepts@.len() == 0
    &&& r.added_behaviors@.len() == 0
    &&& r.removed_behaviors@.len() == 0
    &&& r.modified_behaviors@.len() == 0
    &&& r.added_tasks@.len() == 0
    &&& r.removed_tasks@.len() == 0
    &&& r.modified_tasks@.len() == 0
}

impl Default for DiffReport {
    fn default() -> (r: Self)
        ensures
            report_empty(r),
    {
        DiffReport {
            added_requirements: Vec::new(),
            removed_requirements: Vec::new(),
            modified_requirements: Vec::new(),
            added_concepts: Vec::new(),
            removed_concepts: Vec::new(),
            modified_concepts: Vec::new(),
            added_behaviors: Vec::new(),
            removed_behaviors: Vec::new(),
            modified_behaviors: Vec::new(),
            added_tasks: Vec::new(),
            removed_tasks: Vec::new(),
            modified_tasks: Vec::new(),
        }
    }
}

// ============================================================================
// Named elements
// ============================================================================

/// An element identified by a name or ID.
pub trait Named {
    /// The element's name or ID.
    spec fn key_spec(&self) -> Seq<char>;

    /// The element's name or ID.
    fn key(&self) -> (k: &str)
        ensures
            k@ == self.key_spec(),
    ;
}

impl Named for Requirement {
    open spec fn key_spec(&self) -> Seq<char> {
        self.id.value@
    }

    fn key(&self) -> (k: &str) {
        self.id.value.as_str()
    }
}

impl Named for Concept {
    open spec fn key_spec(&self) -> Seq<char> {
        self.name.value@
    }

    fn key(&self) -> (k: &str) {
        self.name.value.as_str()
    }
}

impl Named for Behavior {
    open spec fn key_spec(&self) -> Seq<char> {
        self.name.value@
    }

    fn key(&self) -> (k: &str) {
        self.name.value.as_str()
    }
}

impl Named for Task {
    open spec fn key_spec(&self) -> Seq<char> {
        self.id.value@
    }

    fn key(&self) -> (k: &str) {
        self.id.value.as_str()
    }
}

/// The values that a sequence of references points to.
pub open spec fn derefs<T>(s: Seq<&T>) -> Seq<T> {
    s.map_values(|t: &T| *t)
}

/// The keys of `s`, in order.
pub open spec fn keys<T: Named>(s: Seq<T>) -> Seq<Seq<char>> {
    s.map_values(|t: T| t.key_spec())
}

/// The distinct strings of `s`, in order of first occurrence.
pub open spec fn dedup(s: Seq<Seq<char>>) -> Seq<Seq<char>>
    decreases s.len(),
{
    if s.len() == 0 {
        Seq::empty()
    } else {
        let prev = dedup(s.drop_last());
        if prev.contains(s.last()) {
            prev
        } else {
            prev.push(s.last())
        }
    }
}

/// The last element of `s` with key `k` (later elements override earlier ones).
pub open spec fn last_keyed<T: Named>(s: Seq<T>, k: Seq<char>) -> Option<T>
    decreases s.len(),
{
    if s.len() == 0 {
        None
    } else if s.last().key_spec() == k {
        Some(s.last())
    } else {
        last_keyed(s.drop_last(), k)
    }
}

/// The strings of `after` that `before` lacks, in order.
pub open spec fn missing_from(after: Seq<Seq<char>>, before: Seq<Seq<char>>) -> Seq<Seq<char>> {
    after.filter(|x: Seq<char>| !before.contains(x))
}

/// Whether `v` holds a string equal to `t`.
pub fn holds_string(v: &Vec<String>, t: &str) -> (b: bool)
    ensures
        b == views(v@).contains(t@),
{
    let mut i: usize = 0;
    while i < v.len()
        invariant
            i <= v@.len(),
            forall|j: int| 0 <= j < i ==> v@[j]@ != t@,
        decreases v.len() - i,
    {
        if str_eq(v[i].as_str(), t) {
            assert(views(v@)[i as int] == t@);
            return true;
        }
        i += 1;
    }
    proof {
        if views(v@).contains(t@) {
            let j = choose|j: int| 0 <= j < views(v@).len() && views(v@)[j] == t@;
            assert(v@[j]@ == t@);
        }
    }
    false
}

/// The distinct names of `names`, in order of first occurrence.
pub fn dedup_names(names: &Vec<String>) -> (r: Vec<String>)
    ensures
        views(r@) == dedup(views(names@)),
{
    let ghost vs = views(names@);
    let mut r: Vec<String> = Vec::new();
    let mut i: usize = 0;
    while i < names.len()
        invariant
            i <= names@.len(),
            vs == views(names@),
            views(r@) == dedup(vs.take(i as int)),
        decreases names.len() - i,
    {
        proof {
            assert(vs.take(i + 1).drop_last() =~= vs.take(i as int));
            assert(vs.take(i + 1).last() == names@[i as int]@);
        }
        if !holds_string(&r, names[i].as_str()) {
            let ghost r0 = r@;
            r.push(names[i].clone());
            assert(views(r@) =~= views(r0).push(names@[i as int]@));
        }
        i += 1;
    }
    assert(vs.take(vs.len() as int) =~= vs);
    r
}

/// The keys of `items`, in order.
pub fn keys_of<T: Named>(items: &Vec<&T>) -> (r: Vec<String>)
    ensures
        views(r@) == keys(derefs(items@)),
{
    let ghost ks = keys(derefs(items@));
    let mut r: Vec<String> = Vec::new();
    let mut i: usize = 0;
    while i < items.len()
        invariant
            i <= items@.len(),
            ks == keys(derefs(items@)),
            views(r@) == ks.take(i as int),
        decreases items.len() - i,
    {
        let k = items[i].key();
        let ghost r0 = r@;
        r.push(crate::text::owned(k));
        assert(ks[i as int] == items@[i as int].key_spec());
        assert(views(r@) =~= views(r0).push(k@));
        assert(ks.take(i + 1) =~= ks.take(i as int).push(ks[i as int]));
        i += 1;
    }
    assert(ks.take(ks.len() as int) =~= ks);
    r
}

/// The last of `items` with key `k`.
pub fn find_last<'a, T: Named>(items: &Vec<&'a T>, k: &str) -> (r: Option<&'a T>)
    ensures
        match r {
            Some(x) => last_keyed(derefs(items@), k@) == Some(*x),
            None => last_keyed(derefs(items@), k@) is None,
        },
{
    let ghost s = derefs(items@);
    assert(s.take(s.len() as int) =~= s);
    let mut i: usize = items.len();
    while i > 0
        invariant
            i <= items@.len(),
            s == derefs(items@),
            last_keyed(s, k@) == last_keyed(s.take(i as int), k@),
        decreases i,
    {
        proof {
            assert(s.take(i as int).drop_last() =~= s.take(i - 1));
            assert(s.take(i as int).last() == *items@[i - 1]);
        }
        if str_eq(items[i - 1].key(), k) {
            return Some(items[i - 1]);
        }
        i -= 1;
    }
    None
}

/// Appends to `added` the names of `after` that `before` lacks, and to `removed`
/// the names of `before` that `after` lacks, each in order.
pub fn split_names(before: &Vec<String>, after: &Vec<String>, added: &mut Vec<String>, removed: &mut Vec<String>)
    ensures
        views(final(added)@) == views(old(added)@) + missing_from(views(after@), views(before@)),
        views(final(removed)@) == views(old(removed)@) + missing_from(views(before@), views(after@)),
{
    let ghost a0 = views(added@);
    let ghost ov = views(before@);
    let ghost nv = views(after@);
    let ghost pa = |x: Seq<char>| !ov.contains(x);
    let mut i: usize = 0;
    while i < after.len()
        invariant
            i <= after@.len(),
            nv == views(after@),
            ov == views(before@),
            pa == (|x: Seq<char>| !ov.contains(x)),
            views(added@) == a0 + nv.take(i as int).filter(pa),
        decreases after.len() - i,
    {
        proof {
            crate::text::lemma_filter_take_push(nv, pa, i as int);
        }
        if !holds_string(before, after[i].as_str()) {
            let ghost r0 = added@;
            added.push(after[i].clone());
            assert(views(added@) =~= views(r0).push(nv[i as int]));
        }
        i += 1;
    }
    assert(nv.take(nv.len() as int) =~= nv);
    let ghost r0 = views(removed@);
    let ghost pr = |x: Seq<char>| !nv.contains(x);
    let mut i: usize = 0;
    while i < before.len()
        invariant
            i <= before@.len(),
            nv == views(after@),
            ov == views(before@),
            pr == (|x: Seq<char>| !nv.contains(x)),
            views(removed@) == r0 + ov.take(i as int).filter(pr),
        decreases before.len() - i,
    {
        proof {
            crate::text::lemma_filter_take_push(ov, pr, i as int);
        }
        if !holds_string(after, before[i].as_str()) {
            let ghost s0 = removed@;
            removed.push(before[i].clone());
            assert(views(removed@) =~= views(s0).push(ov[i as int]));
        }
        i += 1;
    }
    assert(ov.take(ov.len() as int) =~= ov);
}

// ============================================================================
// The elements of a file
// ============================================================================

/// The requirements among `cs`, in order.
pub open spec fn requirements_in(cs: Seq<SectionContent>) -> Seq<Requirement>
    decreases cs.len(),
{
    if cs.len() == 0 {
        Seq::empty()
    } else {
        let prev = requirements_in(cs.drop_last());
        match cs.last() {
            SectionContent::Requirement(x) => prev.push(x),
            _ => prev,
        }
    }
}

/// The requirements of `file`, in order.
fn requirements_of(file: &SourceFile) -> (r: Vec<&Requirement>)
    ensures
        derefs(r@) == requirements_in(all_contents(*file)),
{
    let cs = contents_of(file);
    let ghost s = cs@.map_values(|c: &SectionContent| *c);
    let mut r: Vec<&Requirement> = Vec::new();
    let mut i: usize = 0;
    while i < cs.len()
        invariant
            i <= cs@.len(),
            s == cs@.map_values(|c: &SectionContent| *c),
            derefs(r@) == requirements_in(s.take(i as int)),
        decreases cs.len() - i,
    {
        proof {
            assert(s.take(i + 1).drop_last() =~= s.take(i as int));
            assert(s.take(i + 1).last() == *cs@[i as int]);
        }
        match cs[i] {
            SectionContent::Requirement(x) => {
                let ghost r0 = r@;
                r.push(x);
                assert(derefs(r@) =~= derefs(r0).push(*x));
            },
            _ => {},
        }
        i += 1;
    }
    assert(s.take(s.len() as int) =~= s);
    r
}

/// The concepts among `cs`, in order.
pub open spec fn concepts_in(cs: Seq<SectionContent>) -> Seq<Concept>
    decreases cs.len(),
{
    if cs.len() == 0 {
        Seq::empty()
    } else {
        let prev = concepts_in(cs.drop_last());
        match cs.last() {
            SectionContent::Concept(x) => prev.push(x),
            _ => prev,
        }
    }
}

/// The concepts of `file`, in order.
fn concepts_of(file: &SourceFile) -> (r: Vec<&Concept>)
    ensures
        derefs(r@) == concepts_in(all_contents(*file)),
{
    let cs = contents_of(file);
    let ghost s = cs@.map_values(|c: &SectionContent| *c);
    let mut r: Vec<&Concept> = Vec::new();
    let mut i: usize = 0;
    while i < cs.len()
        invariant
            i <= cs@.len(),
            s == cs@.map_values(|c: &SectionContent| *c),
            derefs(r@) == concepts_in(s.take(i as int)),
        decreases cs.len() - i,
    {
        proof {
            assert(s.take(i + 1).drop_last() =~= s.take(i as int));
            assert(s.take(i + 1).last() == *cs@[i as int]);
        }
        match cs[i] {
            SectionContent::Concept(x) => {
                let ghost r0 = r@;
                r.push(x);
                assert(derefs(r@) =~= derefs(r0).push(*x));
            },
            _ => {},
        }
        i += 1;
    }
    assert(s.take(s.len() as int) =~= s);
    r
}

/// The behaviors among `cs`, in order.
pub open spec fn behaviors_in(cs: Seq<SectionContent>) -> Seq<Behavior>
    decreases cs.len(),
{
    if cs.len() == 0 {
        Seq::empty()
    } else {
        let prev = behaviors_in(cs.drop_last());
        match cs.last() {
            SectionContent::Behavior(x) => prev.push(x),
            _ => prev,
        }
    }
}

/// The behaviors of `file`, in order.
fn behaviors_of(file: &SourceFile) -> (r: Vec<&Behavior>)
    ensures
        derefs(r@) == behaviors_in(all_contents(*file)),
{
    let cs = contents_of(file);
    let ghost s = cs@.map_values(|c: &SectionContent| *c);
    let mut r: Vec<&Behavior> = Vec::new();
    let mut i: usize = 0;
    while i < cs.len()
        invariant
            i <= cs@.len(),
            s == cs@.map_values(|c: &SectionContent| *c),
            derefs(r@) == behaviors_in(s.take(i as int)),
        decreases cs.len() - i,
    {
        proof {
            assert(s.take(i + 1).drop_last() =~= s.take(i as int));
            assert(s.take(i + 1).last() == *cs@[i as int]);
        }
        match cs[i] {
            SectionContent::Behavior(x) => {
                let ghost r0 = r@;
                r.push(x);
                assert(derefs(r@) =~= derefs(r0).push(*x));
            },
            _ => {},
        }
        i += 1;
    }
    assert(s.take(s.len() as int) =~= s);
    r
}

/// The tasks among `cs`, in order.
pub open spec fn tasks_in(cs: Seq<SectionContent>) -> Seq<Task>
    decreases cs.len(),
{
    if cs.len() == 0 {
        Seq::empty()
    } else {
        let prev = tasks_in(cs.drop_last());
        match cs.last() {
            SectionContent::Task(x) => prev.push(x),
            _ => prev,
        }
    }
}

/// The tasks of `file`, in order.
fn tasks_of(file: &SourceFile) -> (r: Vec<&Task>)
    ensures
        derefs(r@) == tasks_in(all_contents(*file)),
{
    let cs = contents_of(file);
    let ghost s = cs@.map_values(|c: &SectionContent| *c);
    let mut r: Vec<&Task> = Vec::new();
    let mut i: usize = 0;
    while i < cs.len()
        invariant
            i <= cs@.len(),
            s == cs@.map_values(|c: &SectionContent| *c),
            derefs(r@) == tasks_in(s.take(i as int)),
        decreases cs.len() - i,
    {
        proof {
            assert(s.take(i + 1).drop_last() =~= s.take(i as int));
            assert(s.take(i + 1).last() == *cs@[i as int]);
        }
        match cs[i] {
            SectionContent::Task(x) => {
                let ghost r0 = r@;
                r.push(x);
                assert(derefs(r@) =~= derefs(r0).push(*x));
            },
            _ => {},
        }
        i += 1;
    }
    assert(s.take(s.len() as int) =~= s);
    r
}

// ============================================================================
// Comparing two elements
// ============================================================================

/// Appends a change description.
fn push_change(changes: &mut Vec<String>, text: &str)
    ensures
        views(final(changes)@) == views(old(changes)@).push(text@),
{
    let ghost c0 = changes@;
    changes.push(text.to_string());
    assert(views(changes@) =~= views(c0).push(text@));
}

/// One change description when `b` holds, none otherwise.
pub open spec fn change_if(b: bool, text: Seq<char>) -> Seq<Seq<char>> {
    if b {
        seq![text]
    } else {
        Seq::empty()
    }
}

/// Some EARS clause of `o` has a `when` text other than the clause at the
/// same place in `n` (clauses compared pairwise, as far as both go).
pub open spec fn when_changed(o: Seq<EarsClause>, n: Seq<EarsClause>) -> bool {
    exists|i: int| 0 <= i < o.len() && i < n.len() && #[trigger] o[i].when.text@ != n[i].when.text@
}

/// Some EARS clause of `o` has a `shall` text other than the clause at the
/// same place in `n` (clauses compared pairwise, as far as both go).
pub open spec fn shall_changed(o: Seq<EarsClause>, n: Seq<EarsClause>) -> bool {
    exists|i: int| 0 <= i < o.len() && i < n.len() && #[trigger] o[i].shall.text@ != n[i].shall.text@
}

/// The changes between two versions of a requirement: its title, the number
/// of its EARS clauses, the text of their `when` and of their `shall` parts
/// (one change for each kind of part that changed), and whether it has
/// acceptance criteria.
pub open spec fn requirement_changes(o: Requirement, n: Requirement) -> Seq<Seq<char>> {
    change_if(o.title.text@ != n.title.text@, "title changed"@) + change_if(
        o.ears_clauses@.len() != n.ears_clauses@.len(),
        "EARS clauses changed"@,
    ) + change_if(when_changed(o.ears_clauses@, n.ears_clauses@), "EARS 'when' clause changed"@)
        + change_if(shall_changed(o.ears_clauses@, n.ears_clauses@), "EARS 'shall' clause changed"@)
        + change_if((o.acceptance is Some) != (n.acceptance is Some), "acceptance criteria changed"@)
}

/// Whether the `when` and the `shall` texts of the EARS clauses differ
/// between two versions, clause by clause.
fn ears_text_changes(o: &Vec<EarsClause>, n: &Vec<EarsClause>) -> (r: (bool, bool))
    ensures
        r.0 == when_changed(o@, n@),
        r.1 == shall_changed(o@, n@),
{
    let m = if o.len() < n.len() {
        o.len()
    } else {
        n.len()
    };
    let mut w = false;
    let mut s = false;
    let mut i: usize = 0;
    while i < m
        invariant
            i <= m,
            m <= o@.len(),
            m <= n@.len(),
            m == o@.len() || m == n@.len(),
            w == exists|j: int| 0 <= j < i && #[trigger] o@[j].when.text@ != n@[j].when.text@,
            s == exists|j: int| 0 <= j < i && #[trigger] o@[j].shall.text@ != n@[j].shall.text@,
        decreases m - i,
    {
        if !str_eq(o[i].when.text.as_str(), n[i].when.text.as_str()) {
            w = true;
        }
        if !str_eq(o[i].shall.text.as_str(), n[i].shall.text.as_str()) {
            s = true;
        }
        i += 1;
    }
    (w, s)
}

/// The difference between two versions of a requirement, if they differ.
pub open spec fn requirement_diff(o: Requirement, n: Requirement) -> Option<ChangesView> {
    if requirement_changes(o, n).len() == 0 {
        None
    } else {
        Some(ChangesView { key: o.id.value@, changes: requirement_changes(o, n) })
    }
}

/// Compare two requirements and return a diff if they differ.
fn diff_requirement(before: &Requirement, after: &Requirement) -> (r: Option<RequirementDiff>)
    ensures
        match r {
            Some(d) => requirement_diff(*before, *after) == Some(d@),
            None => requirement_diff(*before, *after) is None,
        },
{
    let mut changes: Vec<String> = Vec::new();
    if !str_eq(before.title.text.as_str(), after.title.text.as_str()) {
        push_change(&mut changes, "title changed");
    }
    if before.ears_clauses.len() != after.ears_clauses.len() {
        push_change(&mut changes, "EARS clauses changed");
    }
    let (when_text, shall_text) = ears_text_changes(&before.ears_clauses, &after.ears_clauses);
    if when_text {
        push_change(&mut changes, "EARS 'when' clause changed");
    }
    if shall_text {
        push_change(&mut changes, "EARS 'shall' clause changed");
    }
    if before.acceptance.is_some() != after.acceptance.is_some() {
        push_change(&mut changes, "acceptance criteria changed");
    }
    assert(views(changes@) =~= requirement_changes(*before, *after));
    if changes.len() == 0 {
        None
    } else {
        Some(RequirementDiff { id: before.id.value.clone(), changes })
    }
}

/// The changes between two versions of a behavior.
pub open spec fn behavior_changes(o: Behavior, n: Behavior) -> Seq<Seq<char>> {
    change_if(o.implements@.len() != n.implements@.len(), "implements changed"@) + change_if(
        o.given@.len() != n.given@.len(),
        "given clauses changed"@,
    ) + change_if(o.requires@.len() != n.requires@.len(), "requires clauses changed"@)
        + change_if(o.ensures@.len() != n.ensures@.len(), "ensures clauses changed"@) + change_if(
        (o.returns is Some) != (n.returns is Some),
        "returns changed"@,
    )
}

/// The difference between two versions of a behavior, if they differ.
pub open spec fn behavior_diff(o: Behavior, n: Behavior) -> Option<ChangesView> {
    if behavior_changes(o, n).len() == 0 {
        None
    } else {
        Some(ChangesView { key: o.name.value@, changes: behavior_changes(o, n) })
    }
}

/// Compare two behaviors and return a diff if they differ.
fn diff_behavior(before: &Behavior, after: &Behavior) -> (r: Option<BehaviorDiff>)
    ensures
        match r {
            Some(d) => behavior_diff(*before, *after) == Some(d@),
            None => behavior_diff(*before, *after) is None,
        },
{
    let mut changes: Vec<String> = Vec::new();
    if before.implements.len() != after.implements.len() {
        push_change(&mut changes, "implements changed");
    }
    if before.given.len() != after.given.len() {
        push_change(&mut changes, "given clauses changed");
    }
    if before.requires.len() != after.requires.len() {
        push_change(&mut changes, "requires clauses changed");
    }
    if before.ensures.len() != after.ensures.len() {
        push_change(&mut changes, "ensures clauses changed");
    }
    if before.returns.is_some() != after.returns.is_some() {
        push_change(&mut changes, "returns changed");
    }
    assert(views(changes@) =~= behavior_changes(*before, *after));
    if changes.len() == 0 {
        None
    } else {
        Some(BehaviorDiff { name: before.name.value.clone(), changes })
    }
}

/// The names of fields, in order.
pub open spec fn field_names(fs: Seq<Field>) -> Seq<Seq<char>> {
    fs.map_values(|f: Field| f.name.value@)
}

/// The first field of `fs` named `x`.
pub open spec fn first_named_field(fs: Seq<Field>, x: Seq<char>) -> Option<Field>
    decreases fs.len(),
{
    if fs.len() == 0 {
        None
    } else {
        match first_named_field(fs.drop_last(), x) {
            Some(f) => Some(f),
            None => if fs.last().name.value@ == x {
                Some(fs.last())
            } else {
                None
            },
        }
    }
}

/// Two fields are equal ignoring spans: same name, both typed or both not,
/// and as many constraints.
pub open spec fn fields_equal_spec(a: Field, b: Field) -> bool {
    a.name.value@ == b.name.value@ && (a.ty is Some) == (b.ty is Some) && a.constraints@.len()
        == b.constraints@.len()
}

/// The field named `x` differs between `o` and `n` (both having one).
pub open spec fn field_modified(o: Seq<Field>, n: Seq<Field>, x: Seq<char>) -> bool {
    match first_named_field(o, x) {
        Some(a) => match first_named_field(n, x) {
            Some(b) => !fields_equal_spec(a, b),
            None => false,
        },
        None => false,
    }
}

/// The fields of `o` (by distinct name, first occurrence first) that `n` also
/// has and that differ there.
pub open spec fn modified_field_names(o: Seq<Field>, n: Seq<Field>) -> Seq<Seq<char>> {
    dedup(field_names(o)).filter(
        |x: Seq<char>| dedup(field_names(n)).contains(x) && field_modified(o, n, x),
    )
}

/// The difference between two versions of a concept, if they differ.
pub open spec fn concept_diff(o: Concept, n: Concept) -> Option<ConceptDiffView> {
    let on = dedup(field_names(o.fields@));
    let nn = dedup(field_names(n.fields@));
    let added = missing_from(nn, on);
    let removed = missing_from(on, nn);
    let modified = modified_field_names(o.fields@, n.fields@);
    if added.len() == 0 && removed.len() == 0 && modified.len() == 0 {
        None
    } else {
        Some(
            ConceptDiffView {
                name: o.name.value@,
                added_fields: added,
                removed_fields: removed,
                modified_fields: modified,
            },
        )
    }
}

/// Check if two fields are equal (ignoring spans).
fn fields_equal(a: &Field, b: &Field) -> (r: bool)
    ensures
        r == fields_equal_spec(*a, *b),
{
    if !str_eq(a.name.value.as_str(), b.name.value.as_str()) {
        return false;
    }
    if a.ty.is_some() != b.ty.is_some() {
        return false;
    }
    if a.constraints.len() != b.constraints.len() {
        return false;
    }
    true
}

/// The names of `fs`, in order.
fn field_names_of(fs: &Vec<Field>) -> (r: Vec<String>)
    ensures
        views(r@) == field_names(fs@),
{
    let mut r: Vec<String> = Vec::new();
    let mut i: usize = 0;
    while i < fs.len()
        invariant
            i <= fs@.len(),
            views(r@) == field_names(fs@).take(i as int),
        decreases fs.len() - i,
    {
        let ghost r0 = r@;
        r.push(fs[i].name.value.clone());
        assert(field_names(fs@)[i as int] == fs@[i as int].name.value@);
        assert(views(r@) =~= views(r0).push(fs@[i as int].name.value@));
        assert(field_names(fs@).take(i + 1) =~= field_names(fs@).take(i as int).push(field_names(fs@)[i as int]));
        i += 1;
    }
    assert(field_names(fs@).take(fs@.len() as int) =~= field_names(fs@));
    r
}

/// The first field of `fs` named `x`.
fn find_field<'a>(fs: &'a Vec<Field>, x: &str) -> (r: Option<&'a Field>)
    ensures
        match r {
            Some(f) => first_named_field(fs@, x@) == Some(*f),
            None => first_named_field(fs@, x@) is None,
        },
{
    let mut i: usize = 0;
    while i < fs.len()
        invariant
            i <= fs@.len(),
            first_named_field(fs@.take(i as int), x@) is None,
        decreases fs.len() - i,
    {
        proof {
            assert(fs@.take(i + 1).drop_last() =~= fs@.take(i as int));
        }
        if str_eq(fs[i].name.value.as_str(), x) {
            proof {
                lemma_first_named_prefix(fs@, x@, i + 1);
            }
            return Some(&fs[i]);
        }
        i += 1;
    }
    assert(fs@.take(fs@.len() as int) =~= fs@);
    None
}

/// Once a prefix has a field named `x`, longer prefixes find the same one.
proof fn lemma_first_named_prefix(fs: Seq<Field>, x: Seq<char>, k: int)
    requires
        0 <= k <= fs.len(),
        first_named_field(fs.take(k), x) is Some,
    ensures
        first_named_field(fs, x) == first_named_field(fs.take(k), x),
    decreases fs.len() - k,
{
    if k < fs.len() {
        assert(fs.take(k + 1).drop_last() =~= fs.take(k));
        lemma_first_named_prefix(fs, x, k + 1);
    } else {
        assert(fs.take(k) =~= fs);
    }
}

/// Compare two concepts and return a diff if they differ.
fn diff_concept(before: &Concept, after: &Concept) -> (r: Option<ConceptDiff>)
    ensures
        match r {
            Some(d) => concept_diff(*before, *after) == Some(d@),
            None => concept_diff(*before, *after) is None,
        },
{
    let old_fields = dedup_names(&field_names_of(&before.fields));
    let new_fields = dedup_names(&field_names_of(&after.fields));
    let mut added: Vec<String> = Vec::new();
    let mut removed: Vec<String> = Vec::new();
    assert(views(added@) =~= Seq::<Seq<char>>::empty());
    assert(views(removed@) =~= Seq::<Seq<char>>::empty());
    split_names(&old_fields, &new_fields, &mut added, &mut removed);
    assert(views(added@) =~= missing_from(views(new_fields@), views(old_fields@)));
    assert(views(removed@) =~= missing_from(views(old_fields@), views(new_fields@)));

    let ghost on = views(old_fields@);
    let ghost nn = views(new_fields@);
    let ghost p = |x: Seq<char>| nn.contains(x) && field_modified(before.fields@, after.fields@, x);
    let mut modified: Vec<String> = Vec::new();
    let mut i: usize = 0;
    while i < old_fields.len()
        invariant
            i <= old_fields@.len(),
            on == views(old_fields@),
            nn == views(new_fields@),
            p == (|x: Seq<char>| nn.contains(x) && field_modified(before.fields@, after.fields@, x)),
            views(modified@) == on.take(i as int).filter(p),
        decreases old_fields.len() - i,
    {
        proof {
            crate::text::lemma_filter_take_push(on, p, i as int);
        }
        let name = old_fields[i].as_str();
        if holds_string(&new_fields, name) {
            match (find_field(&before.fields, name), find_field(&after.fields, name)) {
                (Some(of), Some(nf)) => {
                    if !fields_equal(of, nf) {
                        let ghost m0 = modified@;
                        modified.push(old_fields[i].clone());
                        assert(views(modified@) =~= views(m0).push(on[i as int]));
                    }
                },
                _ => {},
            }
        }
        i += 1;
    }
    assert(on.take(on.len() as int) =~= on);
    assert(p =~= (|x: Seq<char>|
        dedup(field_names(after.fields@)).contains(x) && field_modified(before.fields@, after.fields@, x)));
    if added.len() == 0 && removed.len() == 0 && modified.len() == 0 {
        None
    } else {
        Some(
            ConceptDiff {
                name: before.name.value.clone(),
                added_fields: added,
                removed_fields: removed,
                modified_fields: modified,
            },
        )
    }
}

/// The word for a task field kind in change descriptions.
pub open spec fn field_kind_word(k: TaskFieldKind) -> Seq<char> {
    match k {
        TaskFieldKind::File => "file"@,
        TaskFieldKind::Tests => "tests"@,
        TaskFieldKind::Depends => "depends"@,
        TaskFieldKind::Status => "status"@,
        TaskFieldKind::Evidence => "evidence"@,
        TaskFieldKind::Context => "context"@,
    }
}

/// The text of the last field of kind `k` (later fields override earlier ones).
pub open spec fn last_field_text(fs: Seq<TaskField>, k: TaskFieldKind) -> Option<Seq<char>>
    decreases fs.len(),
{
    if fs.len() == 0 {
        None
    } else if fs.last().kind == k {
        Some(fs.last().value.text@)
    } else {
        last_field_text(fs.drop_last(), k)
    }
}

/// The change in the field of kind `k`: changed, removed, or none.
pub open spec fn kind_change(o: Seq<TaskField>, n: Seq<TaskField>, k: TaskFieldKind) -> Seq<Seq<char>> {
    match last_field_text(o, k) {
        Some(ov) => match last_field_text(n, k) {
            Some(nv) => change_if(ov != nv, field_kind_word(k) + " changed"@),
            None => seq![field_kind_word(k) + " removed"@],
        },
        None => Seq::empty(),
    }
}

/// The field of kind `k` was added.
pub open spec fn kind_addition(o: Seq<TaskField>, n: Seq<TaskField>, k: TaskFieldKind) -> Seq<Seq<char>> {
    change_if(
        last_field_text(n, k) is Some && last_field_text(o, k) is None,
        field_kind_word(k) + " added"@,
    )
}

/// The requirement IDs a task references, as a set.
pub open spec fn ref_set(t: Task) -> Set<Seq<char>> {
    Set::new(|x: Seq<char>| exists|i: int| 0 <= i < t.req_refs@.len() && t.req_refs@[i].value@ == x)
}

/// The changed or removed fields, in the order file, tests, depends, status,
/// evidence, context.
pub open spec fn field_changes(of: Seq<TaskField>, nf: Seq<TaskField>) -> Seq<Seq<char>> {
    kind_change(of, nf, TaskFieldKind::File) + kind_change(of, nf, TaskFieldKind::Tests)
        + kind_change(of, nf, TaskFieldKind::Depends) + kind_change(of, nf, TaskFieldKind::Status)
        + kind_change(of, nf, TaskFieldKind::Evidence) + kind_change(of, nf, TaskFieldKind::Context)
}

/// The added fields, in the order file, tests, depends, status, evidence, context.
pub open spec fn field_additions(of: Seq<TaskField>, nf: Seq<TaskField>) -> Seq<Seq<char>> {
    kind_addition(of, nf, TaskFieldKind::File) + kind_addition(of, nf, TaskFieldKind::Tests)
        + kind_addition(of, nf, TaskFieldKind::Depends) + kind_addition(of, nf, TaskFieldKind::Status)
        + kind_addition(of, nf, TaskFieldKind::Evidence) + kind_addition(
        of,
        nf,
        TaskFieldKind::Context,
    )
}

/// The changes between two versions of a task: title, requirement
/// references, changed or removed fields, then added fields.
pub open spec fn task_changes(o: Task, n: Task) -> Seq<Seq<char>> {
    change_if(o.title.text@ != n.title.text@, "title changed"@) + change_if(
        o.req_refs@.len() != n.req_refs@.len() || ref_set(o) != ref_set(n),
        "requirement references changed"@,
    ) + field_changes(o.fields@, n.fields@) + field_additions(o.fields@, n.fields@)
}

/// The difference between two versions of a task, if they differ.
pub open spec fn task_diff(o: Task, n: Task) -> Option<ChangesView> {
    if task_changes(o, n).len() == 0 {
        None
    } else {
        Some(ChangesView { key: o.id.value@, changes: task_changes(o, n) })
    }
}

/// The word for a task field kind.
fn kind_word(k: TaskFieldKind) -> (r: &'static str)
    ensures
        r@ == field_kind_word(k),
{
    match k {
        TaskFieldKind::File => "file",
        TaskFieldKind::Tests => "tests",
        TaskFieldKind::Depends => "depends",
        TaskFieldKind::Status => "status",
        TaskFieldKind::Evidence => "evidence",
        TaskFieldKind::Context => "context",
    }
}

/// The text of the last field of kind `k`.
fn last_field_value(fs: &Vec<TaskField>, k: TaskFieldKind) -> (r: Option<&String>)
    ensures
        match r {
            Some(v) => last_field_text(fs@, k) == Some(v@),
            None => last_field_text(fs@, k) is None,
        },
{
    assert(fs@.take(fs@.len() as int) =~= fs@);
    let mut i: usize = fs.len();
    while i > 0
        invariant
            i <= fs@.len(),
            last_field_text(fs@, k) == last_field_text(fs@.take(i as int), k),
        decreases i,
    {
        proof {
            assert(fs@.take(i as int).drop_last() =~= fs@.take(i - 1));
        }
        if fs[i - 1].kind == k {
            return Some(&fs[i - 1].value.text);
        }
        i -= 1;
    }
    assert(fs@.take(0) =~= Seq::<TaskField>::empty());
    None
}

/// Appends `word` + `tail` as a change description.
fn push_kind_text(changes: &mut Vec<String>, k: TaskFieldKind, tail: &str)
    ensures
        views(final(changes)@) == views(old(changes)@).push(field_kind_word(k) + tail@),
{
    let mut text = String::new();
    push_str(&mut text, kind_word(k));
    push_str(&mut text, tail);
    let ghost c0 = changes@;
    changes.push(text);
    assert(views(changes@) =~= views(c0).push(field_kind_word(k) + tail@));
}

/// Appends the change in the field of kind `k`.
fn push_kind_change(changes: &mut Vec<String>, before: &Task, after: &Task, k: TaskFieldKind)
    ensures
        views(final(changes)@) == views(old(changes)@) + kind_change(before.fields@, after.fields@, k),
{
    let ghost c0 = views(changes@);
    match last_field_value(&before.fields, k) {
        Some(ov) => match last_field_value(&after.fields, k) {
            Some(nv) => {
                if !str_eq(ov.as_str(), nv.as_str()) {
                    push_kind_text(changes, k, " changed");
                }
            },
            None => {
                push_kind_text(changes, k, " removed");
            },
        },
        None => {},
    }
    assert(views(changes@) =~= c0 + kind_change(before.fields@, after.fields@, k));
}

/// Appends the addition of the field of kind `k`.
fn push_kind_addition(changes: &mut Vec<String>, before: &Task, after: &Task, k: TaskFieldKind)
    ensures
        views(final(changes)@) == views(old(changes)@) + kind_addition(before.fields@, after.fields@, k),
{
    let ghost c0 = views(changes@);
    if last_field_value(&after.fields, k).is_some() && last_field_value(&before.fields, k).is_none() {
        push_kind_text(changes, k, " added");
    }
    assert(views(changes@) =~= c0 + kind_addition(before.fields@, after.fields@, k));
}

/// Whether `t` references requirement `x`.
fn references(t: &Task, x: &str) -> (b: bool)
    ensures
        b == ref_set(*t).contains(x@),
{
    let mut i: usize = 0;
    while i < t.req_refs.len()
        invariant
            i <= t.req_refs@.len(),
            forall|j: int| 0 <= j < i ==> t.req_refs@[j].value@ != x@,
        decreases t.req_refs.len() - i,
    {
        if str_eq(t.req_refs[i].value.as_str(), x) {
            return true;
        }
        i += 1;
    }
    false
}

/// Every requirement `a` references, `b` references too.
fn refs_within(a: &Task, b: &Task) -> (r: bool)
    ensures
        r == ref_set(*a).subset_of(ref_set(*b)),
{
    let mut i: usize = 0;
    while i < a.req_refs.len()
        invariant
            i <= a.req_refs@.len(),
            forall|j: int| 0 <= j < i ==> #[trigger] ref_set(*b).contains(a.req_refs@[j].value@),
        decreases a.req_refs.len() - i,
    {
        if !references(b, a.req_refs[i].value.as_str()) {
            assert(ref_set(*a).contains(a.req_refs@[i as int].value@));
            return false;
        }
        i += 1;
    }
    assert forall|x: Seq<char>| ref_set(*a).contains(x) implies ref_set(*b).contains(x) by {
        let j = choose|j: int| 0 <= j < a.req_refs@.len() && a.req_refs@[j].value@ == x;
        assert(ref_set(*b).contains(a.req_refs@[j].value@));
    }
    true
}

/// Appends the changed or removed fields.
fn push_field_changes(changes: &mut Vec<String>, before: &Task, after: &Task)
    ensures
        views(final(changes)@) == views(old(changes)@) + field_changes(before.fields@, after.fields@),
{
    let ghost c0 = views(changes@);
    push_kind_change(changes, before, after, TaskFieldKind::File);
    push_kind_change(changes, before, after, TaskFieldKind::Tests);
    push_kind_change(changes, before, after, TaskFieldKind::Depends);
    push_kind_change(changes, before, after, TaskFieldKind::Status);
    push_kind_change(changes, before, after, TaskFieldKind::Evidence);
    push_kind_change(changes, before, after, TaskFieldKind::Context);
    assert(views(changes@) =~= c0 + field_changes(before.fields@, after.fields@));
}

/// Appends the added fields.
fn push_field_additions(changes: &mut Vec<String>, before: &Task, after: &Task)
    ensures
        views(final(changes)@) == views(old(changes)@) + field_additions(before.fields@, after.fields@),
{
    let ghost c0 = views(changes@);
    push_kind_addition(changes, before, after, TaskFieldKind::File);
    push_kind_addition(changes, before, after, TaskFieldKind::Tests);
    push_kind_addition(changes, before, after, TaskFieldKind::Depends);
    push_kind_addition(changes, before, after, TaskFieldKind::Status);
    push_kind_addition(changes, before, after, TaskFieldKind::Evidence);
    push_kind_addition(changes, before, after, TaskFieldKind::Context);
    assert(views(changes@) =~= c0 + field_additions(before.fields@, after.fields@));
}

/// Compare two tasks and return a diff if they differ.
fn diff_task(before: &Task, after: &Task) -> (r: Option<TaskDiff>)
    ensures
        match r {
            Some(d) => task_diff(*before, *after) == Some(d@),
            None => task_diff(*before, *after) is None,
        },
{
    let mut changes: Vec<String> = Vec::new();
    if !str_eq(before.title.text.as_str(), after.title.text.as_str()) {
        push_change(&mut changes, "title changed");
    }
    if before.req_refs.len() != after.req_refs.len() {
        push_change(&mut changes, "requirement references changed");
    } else {
        let same = refs_within(before, after) && refs_within(after, before);
        proof {
            if same {
                assert(ref_set(*before) =~= ref_set(*after));
            }
        }
        if !same {
            push_change(&mut changes, "requirement references changed");
        }
    }
    let ghost head = views(changes@);
    push_field_changes(&mut changes, before, after);
    push_field_additions(&mut changes, before, after);
    assert(views(changes@) =~= task_changes(*before, *after));
    if changes.len() == 0 {
        None
    } else {
        Some(TaskDiff { id: before.id.value.clone(), changes })
    }
}

// ============================================================================
// Comparing two files
// ============================================================================

/// The views of a sequence of differences.
pub open spec fn diff_views<D: View>(s: Seq<D>) -> Seq<D::V> {
    s.map_values(|d: D| d@)
}

/// The distinct names of `n` that `o` does not define, in order of first definition.
pub open spec fn added_names<T: Named>(o: Seq<T>, n: Seq<T>) -> Seq<Seq<char>> {
    missing_from(dedup(keys(n)), dedup(keys(o)))
}

/// The differences of the requirements that both versions define, in order of
/// first definition in the before version.
pub open spec fn modified_requirements(o: Seq<Requirement>, n: Seq<Requirement>, names: Seq<Seq<char>>) -> Seq<ChangesView>
    decreases names.len(),
{
    if names.len() == 0 {
        Seq::empty()
    } else {
        let prev = modified_requirements(o, n, names.drop_last());
        match last_keyed(o, names.last()) {
            Some(a) => match last_keyed(n, names.last()) {
                Some(b) => match requirement_diff(a, b) {
                    Some(d) => prev.push(d),
                    None => prev,
                },
                None => prev,
            },
            None => prev,
        }
    }
}

/// Diffs the requirements of two versions: names added, names removed, and the
/// differences of those in both.
fn diff_requirements(
    before: &Vec<&Requirement>,
    after: &Vec<&Requirement>,
    added: &mut Vec<String>,
    removed: &mut Vec<String>,
    modified: &mut Vec<RequirementDiff>,
)
    ensures
        views(final(added)@) == views(old(added)@) + added_names(derefs(before@), derefs(after@)),
        views(final(removed)@) == views(old(removed)@) + added_names(derefs(after@), derefs(before@)),
        diff_views(final(modified)@) == diff_views(old(modified)@) + modified_requirements(
            derefs(before@),
            derefs(after@),
            dedup(keys(derefs(before@))),
        ),
{
    let old_names = dedup_names(&keys_of(before));
    let new_names = dedup_names(&keys_of(after));
    split_names(&old_names, &new_names, added, removed);
    let ghost names = views(old_names@);
    let ghost o = derefs(before@);
    let ghost n = derefs(after@);
    let ghost m0 = diff_views(modified@);
    let mut i: usize = 0;
    while i < old_names.len()
        invariant
            i <= old_names@.len(),
            names == views(old_names@),
            o == derefs(before@),
            n == derefs(after@),
            diff_views(modified@) == m0 + modified_requirements(o, n, names.take(i as int)),
        decreases old_names.len() - i,
    {
        proof {
            assert(names.take(i + 1).drop_last() =~= names.take(i as int));
            assert(names.take(i + 1).last() == old_names@[i as int]@);
        }
        let name = old_names[i].as_str();
        match find_last(before, name) {
            Some(a) => match find_last(after, name) {
                Some(b) => match diff_requirement(a, b) {
                    Some(d) => {
                        let ghost v0 = modified@;
                        modified.push(d);
                        assert(diff_views(modified@) =~= diff_views(v0).push(d@));
                    },
                    None => {},
                },
                None => {},
            },
            None => {},
        }
        i += 1;
    }
    assert(names.take(names.len() as int) =~= names);
}

/// The differences of the concepts that both versions define, in order of
/// first definition in the before version.
pub open spec fn modified_concepts(o: Seq<Concept>, n: Seq<Concept>, names: Seq<Seq<char>>) -> Seq<ConceptDiffView>
    decreases names.len(),
{
    if names.len() == 0 {
        Seq::empty()
    } else {
        let prev = modified_concepts(o, n, names.drop_last());
        match last_keyed(o, names.last()) {
            Some(a) => match last_keyed(n, names.last()) {
                Some(b) => match concept_diff(a, b) {
                    Some(d) => prev.push(d),
                    None => prev,
                },
                None => prev,
            },
            None => prev,
        }
    }
}

/// Diffs the concepts of two versions: names added, names removed, and the
/// differences of those in both.
fn diff_concepts(
    before: &Vec<&Concept>,
    after: &Vec<&Concept>,
    added: &mut Vec<String>,
    removed: &mut Vec<String>,
    modified: &mut Vec<ConceptDiff>,
)
    ensures
        views(final(added)@) == views(old(added)@) + added_names(derefs(before@), derefs(after@)),
        views(final(removed)@) == views(old(removed)@) + added_names(derefs(after@), derefs(before@)),
        diff_views(final(modified)@) == diff_views(old(modified)@) + modified_concepts(
            derefs(before@),
            derefs(after@),
            dedup(keys(derefs(before@))),
        ),
{
    let old_names = dedup_names(&keys_of(before));
    let new_names = dedup_names(&keys_of(after));
    split_names(&old_names, &new_names, added, removed);
    let ghost names = views(old_names@);
    let ghost o = derefs(before@);
    let ghost n = derefs(after@);
    let ghost m0 = diff_views(modified@);
    let mut i: usize = 0;
    while i < old_names.len()
        invariant
            i <= old_names@.len(),
            names == views(old_names@),
            o == derefs(before@),
            n == derefs(after@),
            diff_views(modified@) == m0 + modified_concepts(o, n, names.take(i as int)),
        decreases old_names.len() - i,
    {
        proof {
            assert(names.take(i + 1).drop_last() =~= names.take(i as int));
            assert(names.take(i + 1).last() == old_names@[i as int]@);
        }
        let name = old_names[i].as_str();
        match find_last(before, name) {
            Some(a) => match find_last(after, name) {
                Some(b) => match diff_concept(a, b) {
                    Some(d) => {
                        let ghost v0 = modified@;
                        modified.push(d);
                        assert(diff_views(modified@) =~= diff_views(v0).push(d@));
                    },
                    None => {},
                },
                None => {},
            },
            None => {},
        }
        i += 1;
    }
    assert(names.take(names.len() as int) =~= names);
}

/// The differences of the behaviors that both versions define, in order of
/// first definition in the before version.
pub open spec fn modified_behaviors(o: Seq<Behavior>, n: Seq<Behavior>, names: Seq<Seq<char>>) -> Seq<ChangesView>
    decreases names.len(),
{
    if names.len() == 0 {
        Seq::empty()
    } else {
        let prev = modified_behaviors(o, n, names.drop_last());
        match last_keyed(o, names.last()) {
            Some(a) => match last_keyed(n, names.last()) {
                Some(b) => match behavior_diff(a, b) {
                    Some(d) => prev.push(d),
                    None => prev,
                },
                None => prev,
            },
            None => prev,
        }
    }
}

/// Diffs the behaviors of two versions: names added, names removed, and the
/// differences of those in both.
fn diff_behaviors(
    before: &Vec<&Behavior>,
    after: &Vec<&Behavior>,
    added: &mut Vec<String>,
    removed: &mut Vec<String>,
    modified: &mut Vec<BehaviorDiff>,
)
    ensures
        views(final(added)@) == views(old(added)@) + added_names(derefs(before@), derefs(after@)),
        views(final(removed)@) == views(old(removed)@) + added_names(derefs(after@), derefs(before@)),
        diff_views(final(modified)@) == diff_views(old(modified)@) + modified_behaviors(
            derefs(before@),
            derefs(after@),
            dedup(keys(derefs(before@))),
        ),
{
    let old_names = dedup_names(&keys_of(before));
    let new_names = dedup_names(&keys_of(after));
    split_names(&old_names, &new_names, added, removed);
    let ghost names = views(old_names@);
    let ghost o = derefs(before@);
    let ghost n = derefs(after@);
    let ghost m0 = diff_views(modified@);
    let mut i: usize = 0;
    while i < old_names.len()
        invariant
            i <= old_names@.len(),
            names == views(old_names@),
            o == derefs(before@),
            n == derefs(after@),
            diff_views(modified@) == m0 + modified_behaviors(o, n, names.take(i as int)),
        decreases old_names.len() - i,
    {
        proof {
            assert(names.take(i + 1).drop_last() =~= names.take(i as int));
            assert(names.take(i + 1).last() == old_names@[i as int]@);
        }
        let name = old_names[i].as_str();
        match find_last(before, name) {
            Some(a) => match find_last(after, name) {
                Some(b) => match diff_behavior(a, b) {
                    Some(d) => {
                        let ghost v0 = modified@;
                        modified.push(d);
                        assert(diff_views(modified@) =~= diff_views(v0).push(d@));
                    },
                    None => {},
                },
                None => {},
            },
            None => {},
        }
        i += 1;
    }
    assert(names.take(names.len() as int) =~= names);
}

/// The differences of the tasks that both versions define, in order of
/// first definition in the before version.
pub open spec fn modified_tasks(o: Seq<Task>, n: Seq<Task>, names: Seq<Seq<char>>) -> Seq<ChangesView>
    decreases names.len(),
{
    if names.len() == 0 {
        Seq::empty()
    } else {
        let prev = modified_tasks(o, n, names.drop_last());
        match last_keyed(o, names.last()) {
            Some(a) => match last_keyed(n, names.last()) {
                Some(b) => match task_diff(a, b) {
                    Some(d) => prev.push(d),
                    None => prev,
                },
                None => prev,
            },
            None => prev,
        }
    }
}

/// Diffs the tasks of two versions: names added, names removed, and the
/// differences of those in both.
fn diff_tasks(
    before: &Vec<&Task>,
    after: &Vec<&Task>,
    added: &mut Vec<String>,
    removed: &mut Vec<String>,
    modified: &mut Vec<TaskDiff>,
)
    ensures
        views(final(added)@) == views(old(added)@) + added_names(derefs(before@), derefs(after@)),
        views(final(removed)@) == views(old(removed)@) + added_names(derefs(after@), derefs(before@)),
        diff_views(final(modified)@) == diff_views(old(modified)@) + modified_tasks(
            derefs(before@),
            derefs(after@),
            dedup(keys(derefs(before@))),
        ),
{
    let old_names = dedup_names(&keys_of(before));
    let new_names = dedup_names(&keys_of(after));
    split_names(&old_names, &new_names, added, removed);
    let ghost names = views(old_names@);
    let ghost o = derefs(before@);
    let ghost n = derefs(after@);
    let ghost m0 = diff_views(modified@);
    let mut i: usize = 0;
    while i < old_names.len()
        invariant
            i <= old_names@.len(),
            names == views(old_names@),
            o == derefs(before@),
            n == derefs(after@),
            diff_views(modified@) == m0 + modified_tasks(o, n, names.take(i as int)),
        decreases old_names.len() - i,
    {
        proof {
            assert(names.take(i + 1).drop_last() =~= names.take(i as int));
            assert(names.take(i + 1).last() == old_names@[i as int]@);
        }
        let name = old_names[i].as_str();
        match find_last(before, name) {
            Some(a) => match find_last(after, name) {
                Some(b) => match diff_task(a, b) {
                    Some(d) => {
                        let ghost v0 = modified@;
                        modified.push(d);
                        assert(diff_views(modified@) =~= diff_views(v0).push(d@));
                    },
                    None => {},
                },
                None => {},
            },
            None => {},
        }
        i += 1;
    }
    assert(names.take(names.len() as int) =~= names);
}

/// `r` is the report of the differences between `before` and `after`: for each kind
/// of element, the names that only `after` defines, those that only `before`
/// defines, and the differences of those that both define (where one name is
/// defined twice, the later definition counts).
pub open spec fn is_diff_of(r: DiffReport, before: SourceFile, after: SourceFile) -> bool {
    let or = requirements_in(all_contents(before));
    let nr = requirements_in(all_contents(after));
    let oc = concepts_in(all_contents(before));
    let nc = concepts_in(all_contents(after));
    let ob = behaviors_in(all_contents(before));
    let nb = behaviors_in(all_contents(after));
    let ot = tasks_in(all_contents(before));
    let nt = tasks_in(all_contents(after));
    &&& views(r.added_requirements@) == added_names(or, nr)
    &&& views(r.removed_requirements@) == added_names(nr, or)
    &&& diff_views(r.modified_requirements@) == modified_requirements(or, nr, dedup(keys(or)))
    &&& views(r.added_concepts@) == added_names(oc, nc)
    &&& views(r.removed_concepts@) == added_names(nc, oc)
    &&& diff_views(r.modified_concepts@) == modified_concepts(oc, nc, dedup(keys(oc)))
    &&& views(r.added_behaviors@) == added_names(ob, nb)
    &&& views(r.removed_behaviors@) == added_names(nb, ob)
    &&& diff_views(r.modified_behaviors@) == modified_behaviors(ob, nb, dedup(keys(ob)))
    &&& views(r.added_tasks@) == added_names(ot, nt)
    &&& views(r.removed_tasks@) == added_names(nt, ot)
    &&& diff_views(r.modified_tasks@) == modified_tasks(ot, nt, dedup(keys(ot)))
}

/// Compare two parsed specification files.
pub fn diff_files(before: &SourceFile, after: &SourceFile) -> (report: DiffReport)
    ensures
        is_diff_of(report, *before, *after),
{
    let mut report = DiffReport::default();
    proof {
        assert(views(report.added_requirements@) =~= Seq::<Seq<char>>::empty());
        assert(views(report.removed_requirements@) =~= Seq::<Seq<char>>::empty());
        assert(diff_views(report.modified_requirements@) =~= Seq::<ChangesView>::empty());
        assert(views(report.added_concepts@) =~= Seq::<Seq<char>>::empty());
        assert(views(report.removed_concepts@) =~= Seq::<Seq<char>>::empty());
        assert(diff_views(report.modified_concepts@) =~= Seq::<ConceptDiffView>::empty());
        assert(views(report.added_behaviors@) =~= Seq::<Seq<char>>::empty());
        assert(views(report.removed_behaviors@) =~= Seq::<Seq<char>>::empty());
        assert(diff_views(report.modified_behaviors@) =~= Seq::<ChangesView>::empty());
        assert(views(report.added_tasks@) =~= Seq::<Seq<char>>::empty());
        assert(views(report.removed_tasks@) =~= Seq::<Seq<char>>::empty());
        assert(diff_views(report.modified_tasks@) =~= Seq::<ChangesView>::empty());
    }
    let old_reqs = requirements_of(before);
    let new_reqs = requirements_of(after);
    let old_concepts = concepts_of(before);
    let new_concepts = concepts_of(after);
    let old_behaviors = behaviors_of(before);
    let new_behaviors = behaviors_of(after);
    let old_tasks = tasks_of(before);
    let new_tasks = tasks_of(after);
    diff_requirements(
        &old_reqs,
        &new_reqs,
        &mut report.added_requirements,
        &mut report.removed_requirements,
        &mut report.modified_requirements,
    );
    diff_concepts(
        &old_concepts,
        &new_concepts,
        &mut report.added_concepts,
        &mut report.removed_concepts,
        &mut report.modified_concepts,
    );
    diff_behaviors(
        &old_behaviors,
        &new_behaviors,
        &mut report.added_behaviors,
        &mut report.removed_behaviors,
        &mut report.modified_behaviors,
    );
    diff_tasks(
        &old_tasks,
        &new_tasks,
        &mut report.added_tasks,
        &mut report.removed_tasks,
        &mut report.modified_tasks,
    );
    report
}

// ============================================================================
// Reporting
// ============================================================================

/// One line per name: `prefix`, the name, a newline.
pub open spec fn name_lines(prefix: Seq<char>, names: Seq<Seq<char>>) -> Seq<char>
    decreases names.len(),
{
    if names.len() == 0 {
        Seq::empty()
    } else {
        name_lines(prefix, names.drop_last()) + prefix + names.last() + "\n"@
    }
}

/// One line per changed element: its name and its changes.
pub open spec fn change_lines(ds: Seq<ChangesView>) -> Seq<char>
    decreases ds.len(),
{
    if ds.len() == 0 {
        Seq::empty()
    } else {
        change_lines(ds.drop_last()) + "  ~ "@ + ds.last().key + " ("@ + join(
            ds.last().changes,
            ", "@,
        ) + ")\n"@
    }
}

/// The lines for changed concepts: the name, then each added and removed field.
pub open spec fn concept_change_lines(ds: Seq<ConceptDiffView>) -> Seq<char>
    decreases ds.len(),
{
    if ds.len() == 0 {
        Seq::empty()
    } else {
        concept_change_lines(ds.drop_last()) + "  ~ "@ + ds.last().name + "\n"@ + name_lines(
            "      + field: "@,
            ds.last().added_fields,
        ) + name_lines("      - field: "@, ds.last().removed_fields)
    }
}

/// Appends one line per name.
fn push_name_lines(out: &mut String, prefix: &str, names: &Vec<String>)
    ensures
        final(out)@ == old(out)@ + name_lines(prefix@, views(names@)),
{
    let ghost start = out@;
    let ghost vs = views(names@);
    let mut i: usize = 0;
    while i < names.len()
        invariant
            i <= names@.len(),
            vs == views(names@),
            out@ == start + name_lines(prefix@, vs.take(i as int)),
        decreases names.len() - i,
    {
        proof {
            assert(vs.take(i + 1).drop_last() =~= vs.take(i as int));
        }
        push_str(out, prefix);
        push_str(out, names[i].as_str());
        push_str(out, "\n");
        i += 1;
    }
    assert(vs.take(vs.len() as int) =~= vs);
}

/// Appends the line for one changed element.
fn push_change_line(out: &mut String, key: &str, changes: &Vec<String>)
    ensures
        final(out)@ == old(out)@ + "  ~ "@ + key@ + " ("@ + join(views(changes@), ", "@) + ")\n"@,
{
    push_str(out, "  ~ ");
    push_str(out, key);
    push_str(out, " (");
    push_joined(out, changes, ", ");
    push_str(out, ")\n");
}

/// Appends the lines for one changed concept.
fn push_concept_change_line(out: &mut String, d: &ConceptDiff)
    ensures
        final(out)@ == old(out)@ + "  ~ "@ + d.name@ + "\n"@ + name_lines(
            "      + field: "@,
            views(d.added_fields@),
        ) + name_lines("      - field: "@, views(d.removed_fields@)),
{
    push_str(out, "  ~ ");
    push_str(out, d.name.as_str());
    push_str(out, "\n");
    push_name_lines(out, "      + field: ", &d.added_fields);
    push_name_lines(out, "      - field: ", &d.removed_fields);
}

/// The Requirements section of a report's text; empty when it lists no requirements.
pub open spec fn requirements_section(r: DiffReport) -> Seq<char> {
    if r.added_requirements@.len() > 0 || r.removed_requirements@.len() > 0 || r.modified_requirements@.len() > 0 {
        "## Requirements\n\n"@ + name_lines("  + "@, views(r.added_requirements@)) + name_lines(
            "  - "@,
            views(r.removed_requirements@),
        ) + change_lines(diff_views(r.modified_requirements@)) + "\n"@
    } else {
        Seq::empty()
    }
}

/// Appends the Requirements section.
fn push_requirements_section(out: &mut String, r: &DiffReport)
    ensures
        final(out)@ == old(out)@ + requirements_section(*r),
{
    if r.added_requirements.len() > 0 || r.removed_requirements.len() > 0 || r.modified_requirements.len() > 0 {
        let ghost start = out@;
        push_str(out, "## Requirements\n\n");
        push_name_lines(out, "  + ", &r.added_requirements);
        push_name_lines(out, "  - ", &r.removed_requirements);
        let ghost base = out@;
        let ghost ds = diff_views(r.modified_requirements@);
        let mut k: usize = 0;
        while k < r.modified_requirements.len()
            invariant
                k <= r.modified_requirements@.len(),
                ds == diff_views(r.modified_requirements@),
                out@ == base + change_lines(ds.take(k as int)),
            decreases r.modified_requirements.len() - k,
        {
            proof {
                assert(ds.take(k + 1).drop_last() =~= ds.take(k as int));
            }
            let d = &r.modified_requirements[k];
            push_change_line(out, d.id.as_str(), &d.changes);
            k += 1;
        }
        assert(ds.take(ds.len() as int) =~= ds);
        push_str(out, "\n");
        assert(out@ =~= start + requirements_section(*r));
    }
}

/// The Concepts section of a report's text; empty when it lists no concepts.
pub open spec fn concepts_section(r: DiffReport) -> Seq<char> {
    if r.added_concepts@.len() > 0 || r.removed_concepts@.len() > 0 || r.modified_concepts@.len() > 0 {
        "## Concepts\n\n"@ + name_lines("  + "@, views(r.added_concepts@)) + name_lines(
            "  - "@,
            views(r.removed_concepts@),
        ) + concept_change_lines(diff_views(r.modified_concepts@)) + "\n"@
    } else {
        Seq::empty()
    }
}

/// Appends the Concepts section.
fn push_concepts_section(out: &mut String, r: &DiffReport)
    ensures
        final(out)@ == old(out)@ + concepts_section(*r),
{
    if r.added_concepts.len() > 0 || r.removed_concepts.len() > 0 || r.modified_concepts.len() > 0 {
        let ghost start = out@;
        push_str(out, "## Concepts\n\n");
        push_name_lines(out, "  + ", &r.added_concepts);
        push_name_lines(out, "  - ", &r.removed_concepts);
        let ghost base = out@;
        let ghost ds = diff_views(r.modified_concepts@);
        let mut k: usize = 0;
        while k < r.modified_concepts.len()
            invariant
                k <= r.modified_concepts@.len(),
                ds == diff_views(r.modified_concepts@),
                out@ == base + concept_change_lines(ds.take(k as int)),
            decreases r.modified_concepts.len() - k,
        {
            proof {
                assert(ds.take(k + 1).drop_last() =~= ds.take(k as int));
            }
            let d = &r.modified_concepts[k];
            push_concept_change_line(out, d);
            k += 1;
        }
        assert(ds.take(ds.len() as int) =~= ds);
        push_str(out, "\n");
        assert(out@ =~= start + concepts_section(*r));
    }
}

/// The Behaviors section of a report's text; empty when it lists no behaviors.
pub open spec fn behaviors_section(r: DiffReport) -> Seq<char> {
    if r.added_behaviors@.len() > 0 || r.removed_behaviors@.len() > 0 || r.modified_behaviors@.len() > 0 {
        "## Behaviors\n\n"@ + name_lines("  + "@, views(r.added_behaviors@)) + name_lines(
            "  - "@,
            views(r.removed_behaviors@),
        ) + change_lines(diff_views(r.modified_behaviors@)) + "\n"@
    } else {
        Seq::empty()
    }
}

/// Appends the Behaviors section.
fn push_behaviors_section(out: &mut String, r: &DiffReport)
    ensures
        final(out)@ == old(out)@ + behaviors_section(*r),
{
    if r.added_behaviors.len() > 0 || r.removed_behaviors.len() > 0 || r.modified_behaviors.len() > 0 {
        let ghost start = out@;
        push_str(out, "## Behaviors\n\n");
        push_name_lines(out, "  + ", &r.added_behaviors);
        push_name_lines(out, "  - ", &r.removed_behaviors);
        let ghost base = out@;
        let ghost ds = diff_views(r.modified_behaviors@);
        let mut k: usize = 0;
        while k < r.modified_behaviors.len()
            invariant
                k <= r.modified_behaviors@.len(),
                ds == diff_views(r.modified_behaviors@),
                out@ == base + change_lines(ds.take(k as int)),
            decreases r.modified_behaviors.len() - k,
        {
            proof {
                assert(ds.take(k + 1).drop_last() =~= ds.take(k as int));
            }
            let d = &r.modified_behaviors[k];
            push_change_line(out, d.name.as_str(), &d.changes);
            k += 1;
        }
        assert(ds.take(ds.len() as int) =~= ds);
        push_str(out, "\n");
        assert(out@ =~= start + behaviors_section(*r));
    }
}

/// The Tasks section of a report's text; empty when it lists no tasks.
pub open spec fn tasks_section(r: DiffReport) -> Seq<char> {
    if r.added_tasks@.len() > 0 || r.removed_tasks@.len() > 0 || r.modified_tasks@.len() > 0 {
        "## Tasks\n\n"@ + name_lines("  + "@, views(r.added_tasks@)) + name_lines(
            "  - "@,
            views(r.removed_tasks@),
        ) + change_lines(diff_views(r.modified_tasks@))
    } else {
        Seq::empty()
    }
}

/// Appends the Tasks section.
fn push_tasks_section(out: &mut String, r: &DiffReport)
    ensures
        final(out)@ == old(out)@ + tasks_section(*r),
{
    if r.added_tasks.len() > 0 || r.removed_tasks.len() > 0 || r.modified_tasks.len() > 0 {
        let ghost start = out@;
        push_str(out, "## Tasks\n\n");
        push_name_lines(out, "  + ", &r.added_tasks);
        push_name_lines(out, "  - ", &r.removed_tasks);
        let ghost base = out@;
        let ghost ds = diff_views(r.modified_tasks@);
        let mut k: usize = 0;
        while k < r.modified_tasks.len()
            invariant
                k <= r.modified_tasks@.len(),
                ds == diff_views(r.modified_tasks@),
                out@ == base + change_lines(ds.take(k as int)),
            decreases r.modified_tasks.len() - k,
        {
            proof {
                assert(ds.take(k + 1).drop_last() =~= ds.take(k as int));
            }
            let d = &r.modified_tasks[k];
            push_change_line(out, d.id.as_str(), &d.changes);
            k += 1;
        }
        assert(ds.take(ds.len() as int) =~= ds);
        
        assert(out@ =~= start + tasks_section(*r));
    }
}

/// A report's text.
pub open spec fn report_text(r: DiffReport) -> Seq<char> {
    if report_empty(r) {
        "No differences found."@
    } else {
        "Found "@ + decimal(total_changes(r)) + " change(s):\n\n"@ + requirements_section(r)
            + concepts_section(r) + behaviors_section(r) + tasks_section(r)
    }
}

impl DiffReport {
    /// Returns true if there are no differences.
    pub fn is_empty(&self) -> (b: bool)
        ensures
            b == report_empty(*self),
    {
        self.added_requirements.len() == 0 && self.removed_requirements.len() == 0
            && self.modified_requirements.len() == 0 && self.added_concepts.len() == 0
            && self.removed_concepts.len() == 0 && self.modified_concepts.len() == 0
            && self.added_behaviors.len() == 0 && self.removed_behaviors.len() == 0
            && self.modified_behaviors.len() == 0 && self.added_tasks.len() == 0
            && self.removed_tasks.len() == 0 && self.modified_tasks.len() == 0
    }

    /// Total number of changes.
    pub fn change_count(&self) -> (n: usize)
        requires
            total_changes(*self) <= usize::MAX,
        ensures
            n == total_changes(*self),
    {
        self.added_requirements.len() + self.removed_requirements.len()
            + self.modified_requirements.len() + self.added_concepts.len()
            + self.removed_concepts.len() + self.modified_concepts.len()
            + self.added_behaviors.len() + self.removed_behaviors.len()
            + self.modified_behaviors.len() + self.added_tasks.len() + self.removed_tasks.len()
            + self.modified_tasks.len()
    }

    /// Format the report as human-readable text.
    pub fn format_text(&self) -> (out: String)
        requires
            total_changes(*self) <= usize::MAX,
        ensures
            out@ == report_text(*self),
    {
        if self.is_empty() {
            return "No differences found.".to_string();
        }
        let mut out = String::new();
        push_str(&mut out, "Found ");
        push_decimal(&mut out, self.change_count() as u64);
        push_str(&mut out, " change(s):\n\n");
        push_requirements_section(&mut out, self);
        push_concepts_section(&mut out, self);
        push_behaviors_section(&mut out, self);
        push_tasks_section(&mut out, self);
        out
    }
}

// ============================================================================
// Laws
// ============================================================================

/// No string of a list is missing from that same list.
proof fn lemma_missing_from_self(s: Seq<Seq<char>>)
    ensures
        missing_from(s, s).len() == 0,
{
    broadcast use vstd::seq_lib::group_filter_ensures;
    let p = |x: Seq<char>| !s.contains(x);
    let f = s.filter(p);
    if f.len() > 0 {
        assert(f.contains(f[0]));
        s.lemma_filter_contains_rev(p, f[0]);
    }
}

/// No field of a list differs from itself.
proof fn lemma_no_field_modified(fs: Seq<Field>)
    ensures
        modified_field_names(fs, fs).len() == 0,
{
    broadcast use vstd::seq_lib::group_filter_ensures;
    let d = dedup(field_names(fs));
    let p = |x: Seq<char>| d.contains(x) && field_modified(fs, fs, x);
    let f = d.filter(p);
    if f.len() > 0 {
        assert(p(f[0]));
    }
}

proof fn lemma_requirements_unmodified(o: Seq<Requirement>, names: Seq<Seq<char>>)
    ensures
        modified_requirements(o, o, names).len() == 0,
    decreases names.len(),
{
    if names.len() > 0 {
        lemma_requirements_unmodified(o, names.drop_last());
    }
}

proof fn lemma_concepts_unmodified(o: Seq<Concept>, names: Seq<Seq<char>>)
    ensures
        modified_concepts(o, o, names).len() == 0,
    decreases names.len(),
{
    if names.len() > 0 {
        lemma_concepts_unmodified(o, names.drop_last());
        match last_keyed(o, names.last()) {
            Some(a) => {
                lemma_missing_from_self(dedup(field_names(a.fields@)));
                lemma_no_field_modified(a.fields@);
            },
            None => {},
        }
    }
}

proof fn lemma_behaviors_unmodified(o: Seq<Behavior>, names: Seq<Seq<char>>)
    ensures
        modified_behaviors(o, o, names).len() == 0,
    decreases names.len(),
{
    if names.len() > 0 {
        lemma_behaviors_unmodified(o, names.drop_last());
    }
}

proof fn lemma_tasks_unmodified(o: Seq<Task>, names: Seq<Seq<char>>)
    ensures
        modified_tasks(o, o, names).len() == 0,
    decreases names.len(),
{
    if names.len() > 0 {
        lemma_tasks_unmodified(o, names.drop_last());
        match last_keyed(o, names.last()) {
            Some(a) => {
                assert(field_changes(a.fields@, a.fields@).len() == 0);
                assert(field_additions(a.fields@, a.fields@).len() == 0);
                assert(task_changes(a, a).len() == 0);
            },
            None => {},
        }
    }
}

/// Comparing a specification with itself reports no difference.
pub proof fn diff_of_same_file_is_empty(f: SourceFile, r: DiffReport)
    requires
        is_diff_of(r, f, f),
    ensures
        report_empty(r),
{
    let cs = all_contents(f);
    lemma_missing_from_self(dedup(keys(requirements_in(cs))));
    lemma_missing_from_self(dedup(keys(concepts_in(cs))));
    lemma_missing_from_self(dedup(keys(behaviors_in(cs))));
    lemma_missing_from_self(dedup(keys(tasks_in(cs))));
    lemma_requirements_unmodified(requirements_in(cs), dedup(keys(requirements_in(cs))));
    lemma_concepts_unmodified(concepts_in(cs), dedup(keys(concepts_in(cs))));
    lemma_behaviors_unmodified(behaviors_in(cs), dedup(keys(behaviors_in(cs))));
    lemma_tasks_unmodified(tasks_in(cs), dedup(keys(tasks_in(cs))));
    assert(views(r.added_requirements@).len() == r.added_requirements@.len());
    assert(views(r.removed_requirements@).len() == r.removed_requirements@.len());
    assert(diff_views(r.modified_requirements@).len() == r.modified_requirements@.len());
    assert(views(r.added_concepts@).len() == r.added_concepts@.len());
    assert(views(r.removed_concepts@).len() == r.removed_concepts@.len());
    assert(diff_views(r.modified_concepts@).len() == r.modified_concepts@.len());
    assert(views(r.added_behaviors@).len() == r.added_behaviors@.len());
    assert(views(r.removed_behaviors@).len() == r.removed_behaviors@.len());
    assert(diff_views(r.modified_behaviors@).len() == r.modified_behaviors@.len());
    assert(views(r.added_tasks@).len() == r.added_tasks@.len());
    assert(views(r.removed_tasks@).len() == r.removed_tasks@.len());
    assert(diff_views(r.modified_tasks@).len() == r.modified_tasks@.len());
}

/// Comparing the versions the other way round swaps what was added with what
/// was removed, for every kind of element.
pub proof fn swapped_versions_swap_added_and_removed(a: SourceFile, b: SourceFile, r1: DiffReport, r2: DiffReport)
    requires
        is_diff_of(r1, a, b),
        is_diff_of(r2, b, a),
    ensures
        views(r1.added_requirements@) == views(r2.removed_requirements@),
        views(r1.removed_requirements@) == views(r2.added_requirements@),
        views(r1.added_concepts@) == views(r2.removed_concepts@),
        views(r1.removed_concepts@) == views(r2.added_concepts@),
        views(r1.added_behaviors@) == views(r2.removed_behaviors@),
        views(r1.removed_behaviors@) == views(r2.added_behaviors@),
        views(r1.added_tasks@) == views(r2.removed_tasks@),
        views(r1.removed_tasks@) == views(r2.added_tasks@),
{
}

/// What `dedup` keeps: each string of `s` once.
proof fn lemma_dedup_contents(s: Seq<Seq<char>>)
    ensures
        dedup(s).no_duplicates(),
        forall|x: Seq<char>| dedup(s).contains(x) <==> s.contains(x),
    decreases s.len(),
{
    if s.len() > 0 {
        let rest = s.drop_last();
        let prev = dedup(rest);
        lemma_dedup_contents(rest);
        assert forall|x: Seq<char>| s.contains(x) <==> (rest.contains(x) || x == s.last()) by {
            if s.contains(x) {
                let i = choose|i: int| 0 <= i < s.len() && s[i] == x;
                if i < s.len() - 1 {
                    assert(rest[i] == x);
                }
            }
            if rest.contains(x) {
                let i = choose|i: int| 0 <= i < rest.len() && rest[i] == x;
                assert(s[i] == x);
            }
            if x == s.last() {
                assert(s[s.len() - 1] == x);
            }
        }
        if !prev.contains(s.last()) {
            let p = prev.push(s.last());
            assert forall|x: Seq<char>| p.contains(x) <==> (prev.contains(x) || x == s.last()) by {
                if p.contains(x) {
                    let i = choose|i: int| 0 <= i < p.len() && p[i] == x;
                    if i < prev.len() {
                        assert(prev[i] == x);
                    }
                }
                if prev.contains(x) {
                    let i = choose|i: int| 0 <= i < prev.len() && prev[i] == x;
                    assert(p[i] == x);
                }
                if x == s.last() {
                    assert(p[p.len() - 1] == x);
                }
            }
            assert forall|i: int, j: int| 0 <= i < p.len() && 0 <= j < p.len() && i != j implies p[i]
                != p[j] by {
                if i < prev.len() && j < prev.len() {
                    assert(p[i] == prev[i] && p[j] == prev[j]);
                } else if i < prev.len() {
                    assert(p[i] == prev[i]);
                } else {
                    assert(p[j] == prev[j]);
                }
            }
        }
    }
}

/// What `missing_from` keeps: the strings of `a` that `b` lacks, each once
/// where `a` holds each once.
proof fn lemma_missing_from_contents(a: Seq<Seq<char>>, b: Seq<Seq<char>>)
    requires
        a.no_duplicates(),
    ensures
        missing_from(a, b).no_duplicates(),
        forall|x: Seq<char>| missing_from(a, b).contains(x) <==> (a.contains(x) && !b.contains(x)),
    decreases a.len(),
{
    let p = |x: Seq<char>| !b.contains(x);
    broadcast use vstd::seq_lib::group_filter_ensures;
    reveal(Seq::filter);
    if a.len() > 0 {
        let rest = a.drop_last();
        assert(rest.no_duplicates());
        lemma_missing_from_contents(rest, b);
        assert(a.filter(p) == if p(a.last()) { rest.filter(p).push(a.last()) } else { rest.filter(p) });
        assert forall|x: Seq<char>| a.contains(x) <==> (rest.contains(x) || x == a.last()) by {
            if a.contains(x) {
                let i = choose|i: int| 0 <= i < a.len() && a[i] == x;
                if i < a.len() - 1 {
                    assert(rest[i] == x);
                }
            }
            if rest.contains(x) {
                let i = choose|i: int| 0 <= i < rest.len() && rest[i] == x;
                assert(a[i] == x);
            }
            if x == a.last() {
                assert(a[a.len() - 1] == x);
            }
        }
        if p(a.last()) {
            let prev = rest.filter(p);
            let q = prev.push(a.last());
            assert(!rest.contains(a.last())) by {
                if rest.contains(a.last()) {
                    let i = choose|i: int| 0 <= i < rest.len() && rest[i] == a.last();
                    assert(a[i] == a[a.len() - 1]);
                }
            }
            assert forall|x: Seq<char>| q.contains(x) <==> (prev.contains(x) || x == a.last()) by {
                if q.contains(x) {
                    let i = choose|i: int| 0 <= i < q.len() && q[i] == x;
                    if i < prev.len() {
                        assert(prev[i] == x);
                    }
                }
                if prev.contains(x) {
                    let i = choose|i: int| 0 <= i < prev.len() && prev[i] == x;
                    assert(q[i] == x);
                }
                if x == a.last() {
                    assert(q[q.len() - 1] == x);
                }
            }
            assert forall|i: int, j: int| 0 <= i < q.len() && 0 <= j < q.len() && i != j implies q[i]
                != q[j] by {
                if i < prev.len() && j < prev.len() {
                    assert(q[i] == prev[i] && q[j] == prev[j]);
                } else if i < prev.len() {
                    assert(q[i] == prev[i]);
                    assert(prev.contains(q[i]));
                } else {
                    assert(q[j] == prev[j]);
                    assert(prev.contains(q[j]));
                }
            }
        }
    }
}

/// The names that `added_names` lists: each name that `n` defines and `o`
/// does not, once.
proof fn lemma_added_names<T: Named>(o: Seq<T>, n: Seq<T>)
    ensures
        added_names(o, n).no_duplicates(),
        added_names(o, n).to_set() == keys(n).to_set().difference(keys(o).to_set()),
{
    lemma_dedup_contents(keys(n));
    lemma_dedup_contents(keys(o));
    lemma_missing_from_contents(dedup(keys(n)), dedup(keys(o)));
    assert(added_names(o, n).to_set() =~= keys(n).to_set().difference(keys(o).to_set()));
}

/// Comparing two versions lists, for each kind of element, each name that only
/// the new version defines as added and each name that only the old version
/// defines as removed, each once and nothing else.
pub proof fn added_and_removed_are_the_names_of_one_version_only(before: SourceFile, after: SourceFile, r: DiffReport)
    requires
        is_diff_of(r, before, after),
    ensures
        views(r.added_requirements@).no_duplicates(),
        views(r.removed_requirements@).no_duplicates(),
        views(r.added_requirements@).to_set() == keys(requirements_in(all_contents(after))).to_set().difference(
            keys(requirements_in(all_contents(before))).to_set(),
        ),
        views(r.removed_requirements@).to_set() == keys(requirements_in(all_contents(before))).to_set().difference(
            keys(requirements_in(all_contents(after))).to_set(),
        ),
        views(r.added_concepts@).no_duplicates(),
        views(r.removed_concepts@).no_duplicates(),
        views(r.added_concepts@).to_set() == keys(concepts_in(all_contents(after))).to_set().difference(
            keys(concepts_in(all_contents(before))).to_set(),
        ),
        views(r.removed_concepts@).to_set() == keys(concepts_in(all_contents(before))).to_set().difference(
            keys(concepts_in(all_contents(after))).to_set(),
        ),
        views(r.added_behaviors@).no_duplicates(),
        views(r.removed_behaviors@).no_duplicates(),
        views(r.added_behaviors@).to_set() == keys(behaviors_in(all_contents(after))).to_set().difference(
            keys(behaviors_in(all_contents(before))).to_set(),
        ),
        views(r.removed_behaviors@).to_set() == keys(behaviors_in(all_contents(before))).to_set().difference(
            keys(behaviors_in(all_contents(after))).to_set(),
        ),
        views(r.added_tasks@).no_duplicates(),
        views(r.removed_tasks@).no_duplicates(),
        views(r.added_tasks@).to_set() == keys(tasks_in(all_contents(after))).to_set().difference(
            keys(tasks_in(all_contents(before))).to_set(),
        ),
        views(r.removed_tasks@).to_set() == keys(tasks_in(all_contents(before))).to_set().difference(
            keys(tasks_in(all_contents(after))).to_set(),
        ),
{
    let b = all_contents(before);
    let a = all_contents(after);
    lemma_added_names(requirements_in(b), requirements_in(a));
    lemma_added_names(requirements_in(a), requirements_in(b));
    lemma_added_names(concepts_in(b), concepts_in(a));
    lemma_added_names(concepts_in(a), concepts_in(b));
    lemma_added_names(behaviors_in(b), behaviors_in(a));
    lemma_added_names(behaviors_in(a), behaviors_in(b));
    lemma_added_names(tasks_in(b), tasks_in(a));
    lemma_added_names(tasks_in(a), tasks_in(b));
}

/// `d` names an element that both versions define and records a change.
pub open spec fn common_and_changed(d: ChangesView, o: Seq<Seq<char>>, n: Seq<Seq<char>>) -> bool {
    o.contains(d.key) && n.contains(d.key) && d.changes.len() > 0
}

/// `d` names a concept that both versions define and records a change.
pub open spec fn common_concept_changed(d: ConceptDiffView, o: Seq<Seq<char>>, n: Seq<Seq<char>>) -> bool {
    &&& o.contains(d.name)
    &&& n.contains(d.name)
    &&& d.added_fields.len() > 0 || d.removed_fields.len() > 0 || d.modified_fields.len() > 0
}

/// What `last_keyed` finds has the key asked for, which `s` therefore holds.
proof fn lemma_last_keyed<T: Named>(s: Seq<T>, k: Seq<char>)
    ensures
        last_keyed(s, k) matches Some(a) ==> a.key_spec() == k && keys(s).contains(k),
    decreases s.len(),
{
    if s.len() > 0 {
        if s.last().key_spec() == k {
            assert(keys(s)[s.len() - 1] == k);
        } else {
            let rest = s.drop_last();
            lemma_last_keyed(rest, k);
            if last_keyed(rest, k) is Some {
                let i = choose|i: int| 0 <= i < keys(rest).len() && keys(rest)[i] == k;
                assert(keys(s)[i] == k);
            }
        }
    }
}

proof fn lemma_modified_requirements(o: Seq<Requirement>, n: Seq<Requirement>, names: Seq<Seq<char>>)
    ensures
        forall|j: int|
            0 <= j < modified_requirements(o, n, names).len() ==> common_and_changed(
                #[trigger] modified_requirements(o, n, names)[j],
                keys(o),
                keys(n),
            ),
    decreases names.len(),
{
    if names.len() > 0 {
        let rest = names.drop_last();
        lemma_modified_requirements(o, n, rest);
        lemma_last_keyed(o, names.last());
        lemma_last_keyed(n, names.last());
        let prev = modified_requirements(o, n, rest);
        let cur = modified_requirements(o, n, names);
        assert forall|j: int| 0 <= j < cur.len() implies common_and_changed(#[trigger] cur[j], keys(o), keys(n)) by {
            if j < prev.len() {
                assert(cur[j] == prev[j]);
            }
        }
    }
}

proof fn lemma_modified_behaviors(o: Seq<Behavior>, n: Seq<Behavior>, names: Seq<Seq<char>>)
    ensures
        forall|j: int|
            0 <= j < modified_behaviors(o, n, names).len() ==> common_and_changed(
                #[trigger] modified_behaviors(o, n, names)[j],
                keys(o),
                keys(n),
            ),
    decreases names.len(),
{
    if names.len() > 0 {
        let rest = names.drop_last();
        lemma_modified_behaviors(o, n, rest);
        lemma_last_keyed(o, names.last());
        lemma_last_keyed(n, names.last());
        let prev = modified_behaviors(o, n, rest);
        let cur = modified_behaviors(o, n, names);
        assert forall|j: int| 0 <= j < cur.len() implies common_and_changed(#[trigger] cur[j], keys(o), keys(n)) by {
            if j < prev.len() {
                assert(cur[j] == prev[j]);
            }
        }
    }
}

proof fn lemma_modified_tasks(o: Seq<Task>, n: Seq<Task>, names: Seq<Seq<char>>)
    ensures
        forall|j: int|
            0 <= j < modified_tasks(o, n, names).len() ==> common_and_changed(
                #[trigger] modified_tasks(o, n, names)[j],
                keys(o),
                keys(n),
            ),
    decreases names.len(),
{
    if names.len() > 0 {
        let rest = names.drop_last();
        lemma_modified_tasks(o, n, rest);
        lemma_last_keyed(o, names.last());
        lemma_last_keyed(n, names.last());
        let prev = modified_tasks(o, n, rest);
        let cur = modified_tasks(o, n, names);
        assert forall|j: int| 0 <= j < cur.len() implies common_and_changed(#[trigger] cur[j], keys(o), keys(n)) by {
            if j < prev.len() {
                assert(cur[j] == prev[j]);
            }
        }
    }
}

proof fn lemma_modified_concepts(o: Seq<Concept>, n: Seq<Concept>, names: Seq<Seq<char>>)
    ensures
        forall|j: int|
            0 <= j < modified_concepts(o, n, names).len() ==> common_concept_changed(
                #[trigger] modified_concepts(o, n, names)[j],
                keys(o),
                keys(n),
            ),
    decreases names.len(),
{
    if names.len() > 0 {
        let rest = names.drop_last();
        lemma_modified_concepts(o, n, rest);
        lemma_last_keyed(o, names.last());
        lemma_last_keyed(n, names.last());
        let prev = modified_concepts(o, n, rest);
        let cur = modified_concepts(o, n, names);
        assert forall|j: int| 0 <= j < cur.len() implies common_concept_changed(#[trigger] cur[j], keys(o), keys(n)) by {
            if j < prev.len() {
                assert(cur[j] == prev[j]);
            }
        }
    }
}

/// Each modified entry of a comparison names an element that both versions
/// define and records at least one change.
pub proof fn modified_entries_name_common_changed_elements(before: SourceFile, after: SourceFile, r: DiffReport)
    requires
        is_diff_of(r, before, after),
    ensures
        forall|j: int|
            0 <= j < r.modified_requirements@.len() ==> common_and_changed(
                #[trigger] diff_views(r.modified_requirements@)[j],
                keys(requirements_in(all_contents(before))),
                keys(requirements_in(all_contents(after))),
            ),
        forall|j: int|
            0 <= j < r.modified_concepts@.len() ==> common_concept_changed(
                #[trigger] diff_views(r.modified_concepts@)[j],
                keys(concepts_in(all_contents(before))),
                keys(concepts_in(all_contents(after))),
            ),
        forall|j: int|
            0 <= j < r.modified_behaviors@.len() ==> common_and_changed(
                #[trigger] diff_views(r.modified_behaviors@)[j],
                keys(behaviors_in(all_contents(before))),
                keys(behaviors_in(all_contents(after))),
            ),
        forall|j: int|
            0 <= j < r.modified_tasks@.len() ==> common_and_changed(
                #[trigger] diff_views(r.modified_tasks@)[j],
                keys(tasks_in(all_contents(before))),
                keys(tasks_in(all_contents(after))),
            ),
{
    let b = all_contents(before);
    let a = all_contents(after);
    lemma_modified_requirements(requirements_in(b), requirements_in(a), dedup(keys(requirements_in(b))));
    lemma_modified_concepts(concepts_in(b), concepts_in(a), dedup(keys(concepts_in(b))));
    lemma_modified_behaviors(behaviors_in(b), behaviors_in(a), dedup(keys(behaviors_in(b))));
    lemma_modified_tasks(tasks_in(b), tasks_in(a), dedup(keys(tasks_in(b))));
}

/// What either part holds, the whole holds.
proof fn lemma_concat_contains<A>(a: Seq<A>, b: Seq<A>)
    ensures
        forall|x: A| a.contains(x) ==> #[trigger] (a + b).contains(x),
        forall|x: A| b.contains(x) ==> #[trigger] (a + b).contains(x),
{
    assert forall|x: A| a.contains(x) implies #[trigger] (a + b).contains(x) by {
        let i = choose|i: int| 0 <= i < a.len() && a[i] == x;
        assert((a + b)[i] == x);
    }
    assert forall|x: A| b.contains(x) implies #[trigger] (a + b).contains(x) by {
        let i = choose|i: int| 0 <= i < b.len() && b[i] == x;
        assert((a + b)[a.len() + i] == x);
    }
}

/// Each kind of difference between two versions of a requirement is among
/// their changes.
proof fn lemma_requirement_changes_listed(o: Requirement, n: Requirement)
    ensures
        o.title.text@ != n.title.text@ ==> requirement_changes(o, n).contains("title changed"@),
        o.ears_clauses@.len() != n.ears_clauses@.len() ==> requirement_changes(o, n).contains(
            "EARS clauses changed"@,
        ),
        when_changed(o.ears_clauses@, n.ears_clauses@) ==> requirement_changes(o, n).contains(
            "EARS 'when' clause changed"@,
        ),
        shall_changed(o.ears_clauses@, n.ears_clauses@) ==> requirement_changes(o, n).contains(
            "EARS 'shall' clause changed"@,
        ),
        (o.acceptance is Some) != (n.acceptance is Some) ==> requirement_changes(o, n).contains(
            "acceptance criteria changed"@,
        ),
{
    let s1 = change_if(o.title.text@ != n.title.text@, "title changed"@);
    let s2 = change_if(o.ears_clauses@.len() != n.ears_clauses@.len(), "EARS clauses changed"@);
    let s3 = change_if(when_changed(o.ears_clauses@, n.ears_clauses@), "EARS 'when' clause changed"@);
    let s4 = change_if(shall_changed(o.ears_clauses@, n.ears_clauses@), "EARS 'shall' clause changed"@);
    let s5 = change_if((o.acceptance is Some) != (n.acceptance is Some), "acceptance criteria changed"@);
    assert(s1.len() > 0 ==> s1[0] == "title changed"@);
    assert(s2.len() > 0 ==> s2[0] == "EARS clauses changed"@);
    assert(s3.len() > 0 ==> s3[0] == "EARS 'when' clause changed"@);
    assert(s4.len() > 0 ==> s4[0] == "EARS 'shall' clause changed"@);
    assert(s5.len() > 0 ==> s5[0] == "acceptance criteria changed"@);
    lemma_concat_contains(s1, s2);
    lemma_concat_contains(s1 + s2, s3);
    lemma_concat_contains(s1 + s2 + s3, s4);
    lemma_concat_contains(s1 + s2 + s3 + s4, s5);
}

/// The difference of every requirement named in `names` that both versions
/// define and that differs is among the modified requirements.
proof fn lemma_modified_requirement_listed(o: Seq<Requirement>, n: Seq<Requirement>, names: Seq<Seq<char>>, id: Seq<char>)
    requires
        names.contains(id),
        last_keyed(o, id) is Some,
        last_keyed(n, id) is Some,
        requirement_diff(last_keyed(o, id).unwrap(), last_keyed(n, id).unwrap()) is Some,
    ensures
        modified_requirements(o, n, names).contains(
            requirement_diff(last_keyed(o, id).unwrap(), last_keyed(n, id).unwrap()).unwrap(),
        ),
    decreases names.len(),
{
    let rest = names.drop_last();
    let d = requirement_diff(last_keyed(o, id).unwrap(), last_keyed(n, id).unwrap()).unwrap();
    let prev = modified_requirements(o, n, rest);
    let cur = modified_requirements(o, n, names);
    if names.last() == id {
        assert(cur == prev.push(d));
        assert(cur[prev.len() as int] == d);
    } else {
        let i = choose|i: int| 0 <= i < names.len() && names[i] == id;
        assert(rest[i] == id);
        lemma_modified_requirement_listed(o, n, rest, id);
        let k = choose|k: int| 0 <= k < prev.len() && prev[k] == d;
        assert(cur.len() >= prev.len() && cur[k] == prev[k]);
    }
}

/// When both versions define a requirement (the last definition of an ID
/// counting) and the two definitions differ in their title, their number of
/// EARS clauses, the `when` or `shall` text of a clause, or in whether they
/// have acceptance criteria, the comparison lists that requirement among the
/// modified ones, with that change.
pub proof fn requirement_differences_are_reported(before: SourceFile, after: SourceFile, r: DiffReport, id: Seq<char>)
    requires
        is_diff_of(r, before, after),
        last_keyed(requirements_in(all_contents(before)), id) is Some,
        last_keyed(requirements_in(all_contents(after)), id) is Some,
    ensures
        ({
            let o = last_keyed(requirements_in(all_contents(before)), id).unwrap();
            let n = last_keyed(requirements_in(all_contents(after)), id).unwrap();
            let listed = |c: Seq<char>|
                exists|j: int|
                    0 <= j < r.modified_requirements@.len() && #[trigger] r.modified_requirements@[j]@.key == id
                        && r.modified_requirements@[j]@.changes.contains(c);
            &&& o.title.text@ != n.title.text@ ==> listed("title changed"@)
            &&& o.ears_clauses@.len() != n.ears_clauses@.len() ==> listed("EARS clauses changed"@)
            &&& when_changed(o.ears_clauses@, n.ears_clauses@) ==> listed("EARS 'when' clause changed"@)
            &&& shall_changed(o.ears_clauses@, n.ears_clauses@) ==> listed("EARS 'shall' clause changed"@)
            &&& (o.acceptance is Some) != (n.acceptance is Some) ==> listed("acceptance criteria changed"@)
        }),
{
    let or = requirements_in(all_contents(before));
    let nr = requirements_in(all_contents(after));
    let o = last_keyed(or, id).unwrap();
    let n = last_keyed(nr, id).unwrap();
    lemma_last_keyed(or, id);
    lemma_dedup_contents(keys(or));
    lemma_requirement_changes_listed(o, n);
    if requirement_changes(o, n).len() > 0 {
        lemma_modified_requirement_listed(or, nr, dedup(keys(or)), id);
        let d = requirement_diff(o, n).unwrap();
        let ms = r.modified_requirements@;
        let k = choose|k: int| 0 <= k < modified_requirements(or, nr, dedup(keys(or))).len()
            && modified_requirements(or, nr, dedup(keys(or)))[k] == d;
        assert(diff_views(ms)[k] == ms[k]@);
        assert(ms[k]@ == d);
        assert(d.key == id);
    }
}

/// Every entry of the modified requirements keyed `id` is the difference
/// between the last definitions of `id` in the two versions.
proof fn lemma_modified_requirement_entry(o: Seq<Requirement>, n: Seq<Requirement>, names: Seq<Seq<char>>, j: int)
    requires
        0 <= j < modified_requirements(o, n, names).len(),
    ensures
        ({
            let d = modified_requirements(o, n, names)[j];
            &&& last_keyed(o, d.key) is Some
            &&& last_keyed(n, d.key) is Some
            &&& d.changes == requirement_changes(last_keyed(o, d.key).unwrap(), last_keyed(n, d.key).unwrap())
        }),
    decreases names.len(),
{
    let rest = names.drop_last();
    let prev = modified_requirements(o, n, rest);
    let cur = modified_requirements(o, n, names);
    if j < prev.len() {
        lemma_modified_requirement_entry(o, n, rest, j);
        assert(cur[j] == prev[j]);
    } else {
        lemma_last_keyed(o, names.last());
        lemma_last_keyed(n, names.last());
    }
}

/// A modified requirement lists a change exactly when the last definitions
/// of its ID in the two versions differ in that way: in the title, in the
/// number of EARS clauses, in the `when` or `shall` text of a clause, or in
/// whether they have acceptance criteria.
pub proof fn listed_requirement_changes_are_exact(before: SourceFile, after: SourceFile, r: DiffReport, j: int)
    requires
        is_diff_of(r, before, after),
        0 <= j < r.modified_requirements@.len(),
    ensures
        ({
            let d = r.modified_requirements@[j]@;
            let o = last_keyed(requirements_in(all_contents(before)), d.key).unwrap();
            let n = last_keyed(requirements_in(all_contents(after)), d.key).unwrap();
            &&& last_keyed(requirements_in(all_contents(before)), d.key) is Some
            &&& last_keyed(requirements_in(all_contents(after)), d.key) is Some
            &&& d.changes.contains("title changed"@) <==> o.title.text@ != n.title.text@
            &&& d.changes.contains("EARS clauses changed"@) <==> o.ears_clauses@.len() != n.ears_clauses@.len()
            &&& d.changes.contains("EARS 'when' clause changed"@) <==> when_changed(o.ears_clauses@, n.ears_clauses@)
            &&& d.changes.contains("EARS 'shall' clause changed"@) <==> shall_changed(o.ears_clauses@, n.ears_clauses@)
            &&& d.changes.contains("acceptance criteria changed"@) <==> (o.acceptance is Some) != (n.acceptance is Some)
        }),
{
    let or = requirements_in(all_contents(before));
    let nr = requirements_in(all_contents(after));
    let ms = modified_requirements(or, nr, dedup(keys(or)));
    assert(diff_views(r.modified_requirements@)[j] == r.modified_requirements@[j]@);
    lemma_modified_requirement_entry(or, nr, dedup(keys(or)), j);
    let d = ms[j];
    let o = last_keyed(or, d.key).unwrap();
    let n = last_keyed(nr, d.key).unwrap();
    lemma_requirement_changes_listed(o, n);
    lemma_requirement_changes_only(o, n);
}

/// The changes of two versions of a requirement name only differences that
/// hold.
proof fn lemma_requirement_changes_only(o: Requirement, n: Requirement)
    ensures
        requirement_changes(o, n).contains("title changed"@) ==> o.title.text@ != n.title.text@,
        requirement_changes(o, n).contains("EARS clauses changed"@) ==> o.ears_clauses@.len() != n.ears_clauses@.len(),
        requirement_changes(o, n).contains("EARS 'when' clause changed"@) ==> when_changed(o.ears_clauses@, n.ears_clauses@),
        requirement_changes(o, n).contains("EARS 'shall' clause changed"@) ==> shall_changed(o.ears_clauses@, n.ears_clauses@),
        requirement_changes(o, n).contains("acceptance criteria changed"@) ==> (o.acceptance is Some) != (n.acceptance is Some),
{
    reveal_strlit("title changed");
    reveal_strlit("EARS clauses changed");
    reveal_strlit("EARS 'when' clause changed");
    reveal_strlit("EARS 'shall' clause changed");
    reveal_strlit("acceptance criteria changed");
    let t = seq!["title changed"@, "EARS clauses changed"@, "EARS 'when' clause changed"@, "EARS 'shall' clause changed"@, "acceptance criteria changed"@];
    let conds = seq![
        o.title.text@ != n.title.text@,
        o.ears_clauses@.len() != n.ears_clauses@.len(),
        when_changed(o.ears_clauses@, n.ears_clauses@),
        shall_changed(o.ears_clauses@, n.ears_clauses@),
        (o.acceptance is Some) != (n.acceptance is Some),
    ];
    let c = requirement_changes(o, n);
    let s1 = change_if(conds[0], t[0]);
    let s2 = change_if(conds[1], t[1]);
    let s3 = change_if(conds[2], t[2]);
    let s4 = change_if(conds[3], t[3]);
    let s5 = change_if(conds[4], t[4]);
    assert(c == s1 + s2 + s3 + s4 + s5);
    assert forall|x: int| 0 <= x < c.len() implies (#[trigger] c[x] == t[0] && conds[0]) || (c[x] == t[1] && conds[1])
        || (c[x] == t[2] && conds[2]) || (c[x] == t[3] && conds[3]) || (c[x] == t[4] && conds[4]) by {
        let l1 = s1.len() as int;
        let l2 = l1 + s2.len();
        let l3 = l2 + s3.len();
        let l4 = l3 + s4.len();
        if x < l1 {
            assert(c[x] == s1[x]);
        } else if x < l2 {
            assert(c[x] == s2[x - l1]);
        } else if x < l3 {
            assert(c[x] == s3[x - l2]);
        } else if x < l4 {
            assert(c[x] == s4[x - l3]);
        } else {
            assert(c[x] == s5[x - l4]);
        }
    }
    assert(t[0].len() == 13 && t[1].len() == 20 && t[2].len() == 26 && t[3].len() == 27 && t[4].len() == 27);
    assert(t[3] != t[4]) by {
        assert(t[3][6] != t[4][6]);
    }
}

} // verus!
