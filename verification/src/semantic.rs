//! The parts of semantic drift detection that need no model: choosing which
//! elements to analyze and cutting their text out of a source file.
use vstd::prelude::*;

use crate::diff::{BehaviorDiff, DiffReport, RequirementDiff};
use crate::strategy::{ComparisonStrategy, ElementType};
use crate::text::{
    chars_of, chars_of_string, find, find_after, find_at_or_after, find_spec, occurs_at, push_str,
    trim, trimmed_range, views,
};

verus! {

/// A semantic discrepancy.
#[derive(Debug, Clone)]
pub struct SemanticDiscrepancy {
    /// Type of discrepancy.
    pub kind: String,
    /// Description.
    pub description: String,
    /// Severity level.
    pub severity: String,
}

/// Whether elements of this type are analyzed semantically under `strategy`:
/// never when structural, always when semantic, and for the prose-heavy
/// requirements, behaviors and invariants when hybrid.
pub open spec fn analyzes_semantically(element_type: ElementType, strategy: ComparisonStrategy) -> bool {
    match strategy {
        ComparisonStrategy::StructuralOnly => false,
        ComparisonStrategy::Semantic => true,
        ComparisonStrategy::Hybrid => element_type == ElementType::Requirement || element_type
            == ElementType::Behavior || element_type == ElementType::Invariant,
    }
}

/// Check if an element type should be analyzed semantically given the strategy.
pub fn should_analyze_semantically(element_type: ElementType, strategy: &ComparisonStrategy) -> (b: bool)
    ensures
        b == analyzes_semantically(element_type, *strategy),
{
    match strategy {
        ComparisonStrategy::StructuralOnly => false,
        ComparisonStrategy::Semantic => true,
        ComparisonStrategy::Hybrid => match element_type {
            ElementType::Requirement | ElementType::Behavior | ElementType::Invariant => true,
            _ => false,
        },
    }
}

/// The text from `start` up to the first of the `ends` found at or after
/// `start + skip` (tried in order), or to the end; trimmed.
pub open spec fn cut_block(s: Seq<char>, start: int, skip: int, ends: Seq<Seq<char>>) -> Seq<char>
    decreases ends.len(),
{
    if ends.len() == 0 {
        trim(s.subrange(start, s.len() as int))
    } else {
        match find_at_or_after(s, ends[0], start + skip) {
            Some(e) => trim(s.subrange(start, e)),
            None => cut_block(s, start, skip, ends.drop_first()),
        }
    }
}

/// The text of requirement `req_id` in `source`: from its `## ID:` header to
/// the next `##` header, else the next `#` header, else the end; trimmed.
pub open spec fn requirement_block(source: Seq<char>, req_id: Seq<char>) -> Option<Seq<char>> {
    match find_spec(source, "## "@ + req_id + ":"@) {
        Some(start) => Some(cut_block(source, start, 3, seq!["\n## "@, "\n# "@])),
        None => None,
    }
}

/// The text of behavior `name` in `source`: from its `Behavior name:` line to
/// the next behavior, else the next concept, else the next `#` header, else
/// two blank lines, else the end; trimmed.
pub open spec fn behavior_block(source: Seq<char>, name: Seq<char>) -> Option<Seq<char>> {
    match find_spec(source, "Behavior "@ + name + ":"@) {
        Some(start) => Some(
            cut_block(source, start, 1, seq!["\nBehavior "@, "\nConcept "@, "\n# "@, "\n\n\n"@]),
        ),
        None => None,
    }
}

/// The character views of a list of patterns.
pub open spec fn pattern_views(ps: Seq<Vec<char>>) -> Seq<Seq<char>> {
    ps.map_values(|p: Vec<char>| p@)
}

/// The trimmed text of `s` from `start` up to the first of `ends` found at or
/// after `start + skip`, or to the end.
fn cut_block_at(s: &Vec<char>, start: usize, skip: usize, ends: &Vec<Vec<char>>) -> (r: String)
    requires
        start + skip <= s@.len(),
    ensures
        r@ == cut_block(s@, start as int, skip as int, pattern_views(ends@)),
{
    let ghost all = pattern_views(ends@);
    let n = s.len();
    let from = start + skip;
    assert(all.skip(0) =~= all);
    let mut k: usize = 0;
    while k < ends.len()
        invariant
            k <= ends@.len(),
            from == start + skip,
            from <= s@.len(),
            all == pattern_views(ends@),
            cut_block(s@, start as int, skip as int, all) == cut_block(
                s@,
                start as int,
                skip as int,
                all.skip(k as int),
            ),
        decreases ends.len() - k,
    {
        let ghost rest = all.skip(k as int);
        proof {
            assert(rest[0] == ends@[k as int]@);
            assert(rest.drop_first() =~= all.skip(k + 1));
        }
        match find_after(s, &ends[k], from) {
            Some(e) => {
                proof {
                    assert(cut_block(s@, start as int, skip as int, rest) == trim(
                        s@.subrange(start as int, e as int),
                    ));
                }
                return trimmed_range(s, start, e);
            },
            None => {
                proof {
                    assert(cut_block(s@, start as int, skip as int, rest) == cut_block(
                        s@,
                        start as int,
                        skip as int,
                        rest.drop_first(),
                    ));
                }
            },
        }
        k += 1;
    }
    proof {
        assert(all.skip(k as int) =~= Seq::<Seq<char>>::empty());
    }
    trimmed_range(s, start, s.len())
}

/// The lengths of the fixed parts of the header patterns.
proof fn lemma_header_lengths()
    ensures
        "## "@.len() == 3,
        ":"@.len() == 1,
        "Behavior "@.len() == 9,
{
    reveal_strlit("## ");
    reveal_strlit(":");
    reveal_strlit("Behavior ");
}

/// Where `prefix + name + ":"` first occurs in `source`, with its characters.
fn find_header(source: &str, prefix: &str, name: &str) -> (r: (Vec<char>, Option<usize>))
    ensures
        r.0@ == source@,
        match r.1 {
            Some(i) => find_spec(source@, prefix@ + name@ + ":"@) == Some(i as int) && i
                + prefix@.len() + 1 <= source@.len(),
            None => find_spec(source@, prefix@ + name@ + ":"@) is None,
        },
{
    let mut pattern = String::new();
    push_str(&mut pattern, prefix);
    push_str(&mut pattern, name);
    push_str(&mut pattern, ":");
    let s = chars_of(source);
    let pat = chars_of_string(&pattern);
    proof {
        lemma_header_lengths();
    }
    let found = find(&s, &pat);
    (s, found)
}

/// Extract the content of a requirement from source text.
pub fn extract_requirement_content(source: &str, req_id: &str) -> (r: Option<String>)
    ensures
        match r {
            Some(t) => requirement_block(source@, req_id@) == Some(t@),
            None => requirement_block(source@, req_id@) is None,
        },
{
    let (s, found) = find_header(source, "## ", req_id);
    proof {
        lemma_header_lengths();
    }
    let start = match found {
        Some(i) => i,
        None => return None,
    };
    let mut ends: Vec<Vec<char>> = Vec::new();
    ends.push(chars_of("\n## "));
    ends.push(chars_of("\n# "));
    assert(pattern_views(ends@) =~= seq!["\n## "@, "\n# "@]);
    Some(cut_block_at(&s, start, 3, &ends))
}

/// Extract the content of a behavior from source text.
pub fn extract_behavior_content(source: &str, behavior_name: &str) -> (r: Option<String>)
    ensures
        match r {
            Some(t) => behavior_block(source@, behavior_name@) == Some(t@),
            None => behavior_block(source@, behavior_name@) is None,
        },
{
    let (s, found) = find_header(source, "Behavior ", behavior_name);
    proof {
        lemma_header_lengths();
    }
    let start = match found {
        Some(i) => i,
        None => return None,
    };
    let mut ends: Vec<Vec<char>> = Vec::new();
    ends.push(chars_of("\nBehavior "));
    ends.push(chars_of("\nConcept "));
    ends.push(chars_of("\n# "));
    ends.push(chars_of("\n\n\n"));
    assert(pattern_views(ends@) =~= seq!["\nBehavior "@, "\nConcept "@, "\n# "@, "\n\n\n"@]);
    Some(cut_block_at(&s, start, 1, &ends))
}


// ============================================================================
// What goes to the semantic judge
// ============================================================================

/// The name a discrepancy kind prints as.
pub open spec fn kind_debug_name(k: crate::client::DiscrepancyKind) -> Seq<char> {
    match k {
        crate::client::DiscrepancyKind::MeaningChanged => "MeaningChanged"@,
        crate::client::DiscrepancyKind::ConstraintWeakened => "ConstraintWeakened"@,
        crate::client::DiscrepancyKind::ConstraintStrengthened => "ConstraintStrengthened"@,
        crate::client::DiscrepancyKind::IntentDrift => "IntentDrift"@,
        crate::client::DiscrepancyKind::AmbiguityIntroduced => "AmbiguityIntroduced"@,
        crate::client::DiscrepancyKind::TerminologyChanged => "TerminologyChanged"@,
    }
}

/// The word a discrepancy severity is reported by, in lower case.
pub open spec fn severity_word(s: crate::client::DiscrepancySeverity) -> Seq<char> {
    match s {
        crate::client::DiscrepancySeverity::Low => "low"@,
        crate::client::DiscrepancySeverity::Medium => "medium"@,
        crate::client::DiscrepancySeverity::High => "high"@,
        crate::client::DiscrepancySeverity::Critical => "critical"@,
    }
}

/// A discrepancy the judge found, as the report lists it: its kind's name,
/// its description, and its severity in lower case.
pub fn discrepancy_of(d: &crate::client::Discrepancy) -> (r: SemanticDiscrepancy)
    ensures
        r.kind@ == kind_debug_name(d.kind),
        r.description@ == d.description@,
        r.severity@ == severity_word(d.severity),
{
    let kind = match d.kind {
        crate::client::DiscrepancyKind::MeaningChanged => "MeaningChanged",
        crate::client::DiscrepancyKind::ConstraintWeakened => "ConstraintWeakened",
        crate::client::DiscrepancyKind::ConstraintStrengthened => "ConstraintStrengthened",
        crate::client::DiscrepancyKind::IntentDrift => "IntentDrift",
        crate::client::DiscrepancyKind::AmbiguityIntroduced => "AmbiguityIntroduced",
        crate::client::DiscrepancyKind::TerminologyChanged => "TerminologyChanged",
    };
    let severity = match d.severity {
        crate::client::DiscrepancySeverity::Low => "low",
        crate::client::DiscrepancySeverity::Medium => "medium",
        crate::client::DiscrepancySeverity::High => "high",
        crate::client::DiscrepancySeverity::Critical => "critical",
    };
    SemanticDiscrepancy {
        kind: kind.to_owned(),
        description: d.description.clone(),
        severity: severity.to_owned(),
    }
}

/// A changed element to put to the semantic judge: its identity, its text
/// in both versions, and what to report if the judge cannot answer.
#[derive(Debug)]
pub struct DriftQuery {
    pub element_id: String,
    pub element_type: String,
    pub old_content: String,
    pub new_content: String,
    /// One structural discrepancy per structural change.
    pub fallback: Vec<SemanticDiscrepancy>,
}

/// What a query says: id, type, both texts and the fallback changes.
pub open spec fn query_view(q: DriftQuery) -> (Seq<char>, Seq<char>, Seq<char>, Seq<char>, Seq<Seq<char>>) {
    (
        q.element_id@,
        q.element_type@,
        q.old_content@,
        q.new_content@,
        q.fallback@.map_values(|d: SemanticDiscrepancy| d.description@),
    )
}

/// A fallback discrepancy is structural and informational.
pub open spec fn fallback_ok(q: DriftQuery) -> bool {
    forall|i: int|
        0 <= i < q.fallback@.len() ==> (#[trigger] q.fallback@[i]).kind@ == "structural"@
            && q.fallback@[i].severity@ == "info"@
}

/// The queries for changed elements `ids` (with their changes) of one type:
/// those whose text both versions hold, in order.
pub open spec fn queries_for(
    ids: Seq<(Seq<char>, Seq<Seq<char>>)>,
    ty: Seq<char>,
    old: Seq<char>,
    new: Seq<char>,
    behaviors: bool,
) -> Seq<(Seq<char>, Seq<char>, Seq<char>, Seq<char>, Seq<Seq<char>>)>
    decreases ids.len(),
{
    if ids.len() == 0 {
        Seq::empty()
    } else {
        let prev = queries_for(ids.drop_last(), ty, old, new, behaviors);
        let (id, changes) = ids.last();
        let (o, n) = if behaviors {
            (behavior_block(old, id), behavior_block(new, id))
        } else {
            (requirement_block(old, id), requirement_block(new, id))
        };
        match (o, n) {
            (Some(a), Some(b)) => prev.push((id, ty, a, b, changes)),
            _ => prev,
        }
    }
}

/// The changed requirements of a report, with their changes.
pub open spec fn requirement_changes(r: DiffReport) -> Seq<(Seq<char>, Seq<Seq<char>>)> {
    r.modified_requirements@.map_values(|d: RequirementDiff| (d.id@, views(d.changes@)))
}

/// The changed behaviors of a report, with their changes.
pub open spec fn behavior_changes(r: DiffReport) -> Seq<(Seq<char>, Seq<Seq<char>>)> {
    r.modified_behaviors@.map_values(|d: BehaviorDiff| (d.name@, views(d.changes@)))
}

/// The fallback discrepancies of a list of changes.
fn fallback_of(changes: &Vec<String>) -> (r: Vec<SemanticDiscrepancy>)
    ensures
        r@.map_values(|d: SemanticDiscrepancy| d.description@) == views(changes@),
        forall|i: int|
            0 <= i < r@.len() ==> (#[trigger] r@[i]).kind@ == "structural"@ && r@[i].severity@
                == "info"@,
{
    let mut r: Vec<SemanticDiscrepancy> = Vec::new();
    let mut i: usize = 0;
    while i < changes.len()
        invariant
            i <= changes@.len(),
            r@.map_values(|d: SemanticDiscrepancy| d.description@) == views(changes@).take(i as int),
            forall|j: int|
                0 <= j < r@.len() ==> (#[trigger] r@[j]).kind@ == "structural"@ && r@[j].severity@
                    == "info"@,
        decreases changes.len() - i,
    {
        let d = SemanticDiscrepancy {
            kind: "structural".to_owned(),
            description: changes[i].clone(),
            severity: "info".to_owned(),
        };
        let ghost r0 = r@;
        r.push(d);
        assert(r@.map_values(|d: SemanticDiscrepancy| d.description@) =~= r0.map_values(
            |d: SemanticDiscrepancy| d.description@,
        ).push(changes@[i as int]@));
        assert(views(changes@).take(i + 1) =~= views(changes@).take(i as int).push(changes@[i as int]@));
        i += 1;
    }
    assert(views(changes@).take(changes@.len() as int) =~= views(changes@));
    r
}

/// Decide what to put to the semantic judge for a structural diff: under
/// a strategy that analyzes requirements, each changed requirement whose
/// text both versions hold; then, likewise, each changed behavior.
pub fn drift_queries(
    structural: &DiffReport,
    old_source: &str,
    new_source: &str,
    strategy: &ComparisonStrategy,
) -> (r: Vec<DriftQuery>)
    ensures
        r@.map_values(|q: DriftQuery| query_view(q)) == (if analyzes_semantically(
            ElementType::Requirement,
            *strategy,
        ) {
            queries_for(requirement_changes(*structural), "requirement"@, old_source@, new_source@, false)
        } else {
            Seq::empty()
        }) + (if analyzes_semantically(ElementType::Behavior, *strategy) {
            queries_for(behavior_changes(*structural), "behavior"@, old_source@, new_source@, true)
        } else {
            Seq::empty()
        }),
        forall|i: int| 0 <= i < r@.len() ==> fallback_ok(#[trigger] r@[i]),
{
    let mut r: Vec<DriftQuery> = Vec::new();
    let ghost rc = requirement_changes(*structural);
    let ghost bc = behavior_changes(*structural);
    if should_analyze_semantically(ElementType::Requirement, strategy) {
        let mut i: usize = 0;
        assert(rc.take(0) =~= Seq::<(Seq<char>, Seq<Seq<char>>)>::empty());
        while i < structural.modified_requirements.len()
            invariant
                i <= structural.modified_requirements@.len(),
                rc == requirement_changes(*structural),
                r@.map_values(|q: DriftQuery| query_view(q)) == queries_for(
                    rc.take(i as int),
                    "requirement"@,
                    old_source@,
                    new_source@,
                    false,
                ),
                forall|j: int| 0 <= j < r@.len() ==> fallback_ok(#[trigger] r@[j]),
            decreases structural.modified_requirements.len() - i,
        {
            proof {
                assert(rc.take(i + 1).drop_last() =~= rc.take(i as int));
                assert(rc.take(i + 1).last() == rc[i as int]);
            }
            let d = &structural.modified_requirements[i];
            assert(rc[i as int] == (d.id@, views(d.changes@)));
            let old_content = extract_requirement_content(old_source, d.id.as_str());
            let new_content = extract_requirement_content(new_source, d.id.as_str());
            match (old_content, new_content) {
                (Some(o), Some(n)) => {
                    let q = DriftQuery {
                        element_id: d.id.clone(),
                        element_type: "requirement".to_owned(),
                        old_content: o,
                        new_content: n,
                        fallback: fallback_of(&d.changes),
                    };
                    let ghost r0 = r@;
                    r.push(q);
                    assert(r@.map_values(|q: DriftQuery| query_view(q)) =~= r0.map_values(
                        |q: DriftQuery| query_view(q),
                    ).push(query_view(q)));
                },
                _ => {},
            }
            i += 1;
        }
        assert(rc.take(rc.len() as int) =~= rc);
    } else {
        assert(r@.map_values(|q: DriftQuery| query_view(q)) =~= Seq::<(Seq<char>, Seq<char>, Seq<char>, Seq<char>, Seq<Seq<char>>)>::empty());
    }
    let ghost head = r@.map_values(|q: DriftQuery| query_view(q));
    if should_analyze_semantically(ElementType::Behavior, strategy) {
        let mut i: usize = 0;
        assert(bc.take(0) =~= Seq::<(Seq<char>, Seq<Seq<char>>)>::empty());
        assert(head + queries_for(bc.take(0), "behavior"@, old_source@, new_source@, true) =~= head);
        while i < structural.modified_behaviors.len()
            invariant
                i <= structural.modified_behaviors@.len(),
                bc == behavior_changes(*structural),
                r@.map_values(|q: DriftQuery| query_view(q)) == head + queries_for(
                    bc.take(i as int),
                    "behavior"@,
                    old_source@,
                    new_source@,
                    true,
                ),
                forall|j: int| 0 <= j < r@.len() ==> fallback_ok(#[trigger] r@[j]),
            decreases structural.modified_behaviors.len() - i,
        {
            proof {
                assert(bc.take(i + 1).drop_last() =~= bc.take(i as int));
                assert(bc.take(i + 1).last() == bc[i as int]);
            }
            let d = &structural.modified_behaviors[i];
            assert(bc[i as int] == (d.name@, views(d.changes@)));
            let old_content = extract_behavior_content(old_source, d.name.as_str());
            let new_content = extract_behavior_content(new_source, d.name.as_str());
            match (old_content, new_content) {
                (Some(o), Some(n)) => {
                    let q = DriftQuery {
                        element_id: d.name.clone(),
                        element_type: "behavior".to_owned(),
                        old_content: o,
                        new_content: n,
                        fallback: fallback_of(&d.changes),
                    };
                    let ghost r0 = r@;
                    r.push(q);
                    assert(r@.map_values(|q: DriftQuery| query_view(q)) =~= r0.map_values(
                        |q: DriftQuery| query_view(q),
                    ).push(query_view(q)));
                },
                _ => {},
            }
            i += 1;
        }
        assert(bc.take(bc.len() as int) =~= bc);
    } else {
        assert(head + Seq::<(Seq<char>, Seq<char>, Seq<char>, Seq<char>, Seq<Seq<char>>)>::empty() =~= head);
    }
    r
}
} // verus!
