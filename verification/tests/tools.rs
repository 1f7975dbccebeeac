//! The command line's decisions and the editor support: merging generated
//! specifications, task evidence, positions and ranges, and completions.

use topos::ast::{Prose, Task, TaskField, TaskFieldKind, TaskId};
use topos::cli::{
    extract_file_paths, extract_items_from_section, format_outcome, gather_outcome, gathers_for, is_glob_pattern,
    merge_specs, short_commit_id, strategy_for_flags, CommitInfo, FormatOutcome, GatherOutcome, GatheredEvidence,
};
use topos::cst::SyntaxNode;
use topos::legacy::check;
use topos::lsp::{position_to_offset, ranges_overlap, span_contains, span_to_range, Position, Range};
use topos::span::Span;
use topos::strategy::ComparisonStrategy;
use topos::text::{decimal_string, trimmed};

fn sp() -> Span {
    Span::new(0, 1, 0, 0, 0, 1)
}

fn task_with(fields: &[(TaskFieldKind, &str)]) -> Task {
    Task {
        id: TaskId { value: "TASK-1".to_string(), span: sp() },
        title: Prose::new("Do it", sp()),
        req_refs: vec![],
        fields: fields.iter().map(|(k, v)| TaskField { kind: *k, value: Prose::new(v, sp()), span: sp() }).collect(),
        prose: vec![],
        span: sp(),
    }
}

#[test]
fn items_of_a_section() {
    let section = "# Concepts\n\nConcept A:\n  field x\n\nConcept B:\n  field y\n";
    assert_eq!(
        extract_items_from_section(section),
        vec!["Concept A:\n  field x".to_string(), "Concept B:\n  field y".to_string()]
    );
    assert!(extract_items_from_section("# Concepts\n\nno items\n").is_empty());
}

#[test]
fn merge_appends_missing_sections() {
    let existing = "spec App\n";
    let generated = "spec App\n\n# Concepts\n\nConcept A:\n  field x\n";
    let merged = merge_specs(existing, generated);
    assert_eq!(merged, "spec App\n\n\n# Concepts\n\nConcept A:\n  field x\n");
}

#[test]
fn merge_adds_only_new_items() {
    let existing = "spec App\n\n# Concepts\n\nConcept A:\n  field x\n";
    let generated = "# Concepts\n\nConcept A:\n  field x\n\nConcept B:\n  field y\n";
    let merged = merge_specs(existing, generated);
    assert!(merged.starts_with(existing));
    assert!(merged.contains("Concept B:\n  field y"));
    assert_eq!(merged.matches("Concept A:").count(), 1);
}

#[test]
fn merge_with_nothing_generated_keeps_existing() {
    let existing = "spec App\n\n# Concepts\n\nConcept A:\n";
    assert_eq!(merge_specs(existing, "spec App\n"), existing);
}

#[test]
fn glob_patterns() {
    assert!(is_glob_pattern("src/**/*.rs"));
    assert!(is_glob_pattern("file?.rs"));
    assert!(is_glob_pattern("[ab].rs"));
    assert!(!is_glob_pattern("src/main.rs"));
}

#[test]
fn drift_flags_choose_strategy() {
    assert_eq!(strategy_for_flags(true, true), ComparisonStrategy::StructuralOnly);
    assert_eq!(strategy_for_flags(false, true), ComparisonStrategy::Semantic);
    assert_eq!(strategy_for_flags(false, false), ComparisonStrategy::Hybrid);
}

#[test]
fn format_outcomes() {
    assert_eq!(format_outcome("a\n", "a", true), FormatOutcome::WouldReformat);
    assert_eq!(format_outcome("a\n", "a\n", true), FormatOutcome::AlreadyFormatted);
    assert_eq!(format_outcome("a\n", "a", false), FormatOutcome::Reformatted);
    assert_eq!(format_outcome("a\n", "a\n", false), FormatOutcome::Unchanged);
}

#[test]
fn task_file_paths() {
    let task = task_with(&[
        (TaskFieldKind::Status, "pending"),
        (TaskFieldKind::Tests, " tests/login.rs "),
        (TaskFieldKind::File, "src/login.rs"),
    ]);
    assert_eq!(extract_file_paths(&task), vec!["src/login.rs".to_string(), "tests/login.rs".to_string()]);
    assert!(extract_file_paths(&task_with(&[(TaskFieldKind::Status, "done")])).is_empty());
}

#[test]
fn evidence_collection() {
    let mut evidence = GatheredEvidence::new();
    assert!(evidence.is_empty());
    evidence.add_commit(CommitInfo { short_id: short_commit_id("0123456789abcdef"), file_path: "src/a.rs".to_string() });
    assert!(!evidence.is_empty());
    assert_eq!(evidence.latest_commit, Some("0123456".to_string()));
    assert_eq!(evidence.files_updated, vec!["src/a.rs".to_string()]);
}

#[test]
fn gathering_decisions() {
    assert!(gathers_for("TASK-1", None));
    assert!(gathers_for("TASK-1", Some("TASK-1")));
    assert!(!gathers_for("TASK-1", Some("TASK-2")));
    assert_eq!(gather_outcome(0, true, false), GatherOutcome::TaskNotFound);
    assert_eq!(gather_outcome(0, false, true), GatherOutcome::NoTasks);
    assert_eq!(gather_outcome(3, false, true), GatherOutcome::WouldUpdate(3));
    assert_eq!(gather_outcome(2, true, false), GatherOutcome::Updated(2));
}

#[test]
fn positions_and_ranges() {
    let span = Span::new(4, 9, 1, 2, 1, 7);
    let range = span_to_range(&span);
    assert_eq!(range.start, Position { line: 1, character: 2 });
    assert_eq!(range.end, Position { line: 1, character: 7 });
    assert!(span_contains(&span, 4));
    assert!(!span_contains(&span, 9));

    let other = Range { start: Position { line: 1, character: 7 }, end: Position { line: 2, character: 0 } };
    assert!(ranges_overlap(&range, &other));
    let later = Range { start: Position { line: 1, character: 8 }, end: Position { line: 2, character: 0 } };
    assert!(!ranges_overlap(&range, &later));
}

#[test]
fn position_offsets_count_bytes() {
    let text = "ab\ncdé\nxyz";
    assert_eq!(position_to_offset(text, Position { line: 0, character: 1 }), 1);
    assert_eq!(position_to_offset(text, Position { line: 1, character: 0 }), 3);
    assert_eq!(position_to_offset(text, Position { line: 1, character: 3 }), 7);
    assert_eq!(position_to_offset(text, Position { line: 1, character: 99 }), 7);
    assert_eq!(position_to_offset(text, Position { line: 2, character: 2 }), 10);
    assert_eq!(position_to_offset(text, Position { line: 9, character: 0 }), text.len());
}

#[test]
fn check_without_tree_reports_parse_failure() {
    let diags = check(None);
    assert_eq!(diags.len(), 1);
    assert_eq!(diags[0].message, "Failed to parse document");
}

#[test]
fn check_reports_error_and_missing_nodes_in_order() {
    let mut missing = SyntaxNode::leaf("identifier", "", Span::new(5, 5, 0, 5, 0, 5));
    missing.is_missing = true;
    let mut err = SyntaxNode::leaf("ERROR", "??", Span::new(1, 3, 0, 1, 0, 3));
    err.is_error = true;
    let root = SyntaxNode::branch("source_file", "x?? y", Span::new(0, 5, 0, 0, 0, 5), vec![err, missing]);
    let diags = check(Some(&root));
    assert_eq!(diags.len(), 2);
    assert_eq!(diags[0].message, "Syntax error near '??'");
    assert_eq!(diags[1].message, "Missing identifier");
}

#[test]
fn decimal_text() {
    assert_eq!(decimal_string(0), "0");
    assert_eq!(decimal_string(1234567890), "1234567890");
}

#[test]
fn trimming_drops_unicode_white_space_only() {
    assert_eq!(trimmed("\u{3000}\t a b\u{85}\n\u{2009}"), "a b");
    assert_eq!(trimmed("\u{200b}x\u{200b}"), "\u{200b}x\u{200b}");
    assert_eq!(trimmed(" \u{a0} "), "");
}
