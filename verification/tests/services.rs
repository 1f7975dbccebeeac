//! Structural diffs, comparison strategies, drift analysis helpers, the
//! semantic client's and the hole assistant's text handling, and the MCP
//! server's filters and reports.

use topos::anchors::{extract_anchors_from_files, Anchor, AnchorCollection, AnchorKind};
use topos::ast::{
    Concept, EarsClause, Identifier, Prose, ReqId, Requirement, Section, SectionContent, SourceFile, SpecDecl,
};
use topos::client::{
    build_semantic_comparison_prompt, compute_cache_key, extract_json, hedging_counts, try_extract_json, DiscrepancyKind,
};
use topos::diff::{diff_files, DiffReport};
use topos::llm::{build_hole_prompt, fallback_plan, FallbackKind, HoleContext};
use topos::semantic::{extract_behavior_content, extract_requirement_content, should_analyze_semantically};
use topos::server::{list_tools, make_tool, tool_by_name, unknown_tool_message, ToolName, ToposServer};
use topos::span::Span;
use topos::strategy::{ComparisonStrategy, ElementType};
use topos::strmap::StrMap;

fn sp() -> Span {
    Span::new(1, 2, 0, 1, 0, 2)
}

fn file_with(name: &str, contents: Vec<SectionContent>) -> SourceFile {
    SourceFile {
        spec: Some(SpecDecl { name: Identifier::new(name, sp()), span: sp() }),
        imports: vec![],
        sections: vec![Section { header: Prose::new("Things", sp()), contents, span: sp() }],
        prose: vec![],
        span: sp(),
    }
}

fn req(id: &str, title: &str) -> SectionContent {
    SectionContent::Requirement(Requirement {
        id: ReqId { value: id.to_string(), span: sp() },
        title: Prose::new(title, sp()),
        ears_clauses: vec![],
        acceptance: None,
        prose: vec![],
        span: sp(),
    })
}

fn concept(name: &str) -> SectionContent {
    SectionContent::Concept(Concept { name: Identifier::new(name, sp()), fields: vec![], prose: vec![], span: sp() })
}

// ---------------------------------------------------------------------------
// Structural diff
// ---------------------------------------------------------------------------

#[test]
fn test_empty_diff() {
    let file = file_with("Test", vec![]);
    let report = diff_files(&file, &file);
    assert!(report.is_empty());
}

#[test]
fn test_diff_report_format() {
    let mut report = DiffReport::default();
    report.added_concepts.push("User".to_string());
    report.removed_requirements.push("REQ-1".to_string());

    let text = report.format_text();
    assert!(text.contains("User"));
    assert!(text.contains("REQ-1"));
}

#[test]
fn test_change_count() {
    let mut report = DiffReport::default();
    assert_eq!(report.change_count(), 0);

    report.added_concepts.push("A".to_string());
    report.removed_concepts.push("B".to_string());
    assert_eq!(report.change_count(), 2);
}

#[test]
fn diff_finds_added_removed_and_modified_elements() {
    let before = file_with("Test", vec![req("REQ-1", "Login"), req("REQ-2", "Logout"), concept("User")]);
    let after = file_with("Test", vec![req("REQ-1", "Sign in"), concept("User"), concept("Order")]);
    let report = diff_files(&before, &after);
    assert_eq!(report.removed_requirements, vec!["REQ-2".to_string()]);
    assert_eq!(report.added_concepts, vec!["Order".to_string()]);
    assert_eq!(report.modified_requirements.len(), 1);
    assert_eq!(report.modified_requirements[0].id, "REQ-1");
    assert_eq!(report.change_count(), 3);
    assert!(!report.is_empty());
}

#[test]
fn diff_of_a_file_with_itself_is_empty() {
    let file = file_with("Test", vec![req("REQ-1", "Login"), concept("User")]);
    assert!(diff_files(&file, &file).is_empty());
}

#[test]
fn swapping_versions_swaps_added_and_removed() {
    let a = file_with("Test", vec![req("REQ-1", "Login"), concept("User")]);
    let b = file_with("Test", vec![req("REQ-2", "Logout"), concept("User"), concept("Order")]);
    let ab = diff_files(&a, &b);
    let ba = diff_files(&b, &a);
    assert_eq!(ab.added_requirements, ba.removed_requirements);
    assert_eq!(ab.removed_requirements, ba.added_requirements);
    assert_eq!(ab.added_concepts, vec!["Order".to_string()]);
    assert_eq!(ba.removed_concepts, vec!["Order".to_string()]);
}

#[test]
fn names_defined_twice_are_added_once_and_shared_names_are_not_listed() {
    let before = file_with("Test", vec![req("REQ-1", "Login"), concept("User")]);
    let after = file_with(
        "Test",
        vec![req("REQ-1", "Login"), req("REQ-3", "Audit"), req("REQ-3", "Audit again"), concept("User")],
    );
    let report = diff_files(&before, &after);
    assert_eq!(report.added_requirements, vec!["REQ-3".to_string()]);
    assert!(report.removed_requirements.is_empty());
    assert!(report.modified_requirements.is_empty());
    assert!(report.added_concepts.is_empty());
}

#[test]
fn modified_entries_name_shared_elements_with_changes() {
    let before = file_with("Test", vec![req("REQ-1", "Login"), req("REQ-2", "Logout")]);
    let after = file_with("Test", vec![req("REQ-1", "Sign in"), req("REQ-2", "Logout"), req("REQ-4", "New")]);
    let report = diff_files(&before, &after);
    assert_eq!(report.modified_requirements.len(), 1);
    assert_eq!(report.modified_requirements[0].id, "REQ-1");
    assert_eq!(report.modified_requirements[0].changes, vec!["title changed".to_string()]);
    assert_eq!(report.added_requirements, vec!["REQ-4".to_string()]);
}

#[test]
fn empty_report_text() {
    assert_eq!(DiffReport::default().format_text(), "No differences found.");
}

// ---------------------------------------------------------------------------
// Strategies
// ---------------------------------------------------------------------------

#[test]
fn test_strategy_for_concept() {
    assert_eq!(ComparisonStrategy::for_element(ElementType::Concept, false), ComparisonStrategy::StructuralOnly);
    assert_eq!(ComparisonStrategy::for_element(ElementType::Concept, true), ComparisonStrategy::StructuralOnly);
}

#[test]
fn test_strategy_for_behavior() {
    assert_eq!(ComparisonStrategy::for_element(ElementType::Behavior, false), ComparisonStrategy::StructuralOnly);
    assert_eq!(ComparisonStrategy::for_element(ElementType::Behavior, true), ComparisonStrategy::Hybrid);
}

#[test]
fn test_strategy_for_requirement() {
    assert_eq!(ComparisonStrategy::for_element(ElementType::Requirement, false), ComparisonStrategy::Hybrid);
}

#[test]
fn test_strategy_for_invariant() {
    assert_eq!(ComparisonStrategy::for_element(ElementType::Invariant, true), ComparisonStrategy::Semantic);
}

#[test]
fn test_fallback() {
    assert_eq!(ComparisonStrategy::Semantic.fallback(), ComparisonStrategy::StructuralOnly);
    assert_eq!(ComparisonStrategy::Hybrid.fallback(), ComparisonStrategy::StructuralOnly);
    assert_eq!(ComparisonStrategy::StructuralOnly.fallback(), ComparisonStrategy::StructuralOnly);
}

#[test]
fn test_requires_mcp() {
    assert!(!ComparisonStrategy::StructuralOnly.requires_mcp());
    assert!(ComparisonStrategy::Semantic.requires_mcp());
    assert!(ComparisonStrategy::Hybrid.requires_mcp());
}

#[test]
fn test_parse_strategy() {
    assert_eq!("structural".parse::<ComparisonStrategy>().unwrap(), ComparisonStrategy::StructuralOnly);
    assert_eq!("SEMANTIC".parse::<ComparisonStrategy>().unwrap(), ComparisonStrategy::Semantic);
    assert_eq!("Hybrid".parse::<ComparisonStrategy>().unwrap(), ComparisonStrategy::Hybrid);
    assert!("unknown".parse::<ComparisonStrategy>().is_err());
}

#[test]
fn strategy_names_parse_back_and_unknown_names_are_reported() {
    for s in [ComparisonStrategy::StructuralOnly, ComparisonStrategy::Semantic, ComparisonStrategy::Hybrid] {
        assert_eq!(s.name().parse::<ComparisonStrategy>(), Ok(s));
    }
    assert_eq!("fuzzy".parse::<ComparisonStrategy>(), Err("Unknown strategy: fuzzy".to_string()));
}

#[test]
fn test_default_strategy() {
    assert_eq!(ComparisonStrategy::default(), ComparisonStrategy::Hybrid);
}

#[test]
fn strategy_names_round_trip() {
    for s in [ComparisonStrategy::StructuralOnly, ComparisonStrategy::Semantic, ComparisonStrategy::Hybrid] {
        assert_eq!(ComparisonStrategy::parse_name(s.name()).unwrap(), s);
    }
    assert_eq!(ComparisonStrategy::parse_name("fuzzy").unwrap_err(), "Unknown strategy: fuzzy");
}

// ---------------------------------------------------------------------------
// Drift analysis helpers
// ---------------------------------------------------------------------------

#[test]
fn test_should_analyze_semantically() {
    assert!(!should_analyze_semantically(ElementType::Concept, &ComparisonStrategy::Hybrid));
    assert!(should_analyze_semantically(ElementType::Requirement, &ComparisonStrategy::Hybrid));
    assert!(should_analyze_semantically(ElementType::Behavior, &ComparisonStrategy::Semantic));
    assert!(!should_analyze_semantically(ElementType::Behavior, &ComparisonStrategy::StructuralOnly));
}

#[test]
fn test_extract_requirement_content() {
    let source = r#"spec Test

# Requirements

## REQ-1: First requirement
This is the first requirement.
It has multiple lines.

## REQ-2: Second requirement
This is another requirement.
"#;

    let content = extract_requirement_content(source, "REQ-1");
    assert!(content.is_some());
    let content = content.unwrap();
    assert!(content.contains("REQ-1: First requirement"));
    assert!(content.contains("multiple lines"));
    assert!(!content.contains("REQ-2"));

    let content2 = extract_requirement_content(source, "REQ-2");
    assert!(content2.is_some());
    assert!(content2.unwrap().contains("another requirement"));

    assert!(extract_requirement_content(source, "REQ-99").is_none());
}

#[test]
fn test_extract_behavior_content() {
    let source = r#"spec Test

# Behaviors

Behavior create_order:
  when: user submits order
  then: order is created

Behavior cancel_order:
  when: user cancels
  then: order is cancelled
"#;

    let content = extract_behavior_content(source, "create_order");
    assert!(content.is_some());
    let content = content.unwrap();
    assert!(content.contains("create_order"));
    assert!(content.contains("user submits order"));
    assert!(!content.contains("cancel_order"));

    let content2 = extract_behavior_content(source, "cancel_order");
    assert!(content2.is_some());
    assert!(content2.unwrap().contains("user cancels"));

    assert!(extract_behavior_content(source, "unknown").is_none());
}

#[test]
fn requirement_content_is_exact_block() {
    let source = "# R\n\n## REQ-1: A\nline one\n## REQ-2: B\nother\n";
    assert_eq!(extract_requirement_content(source, "REQ-1").unwrap(), "## REQ-1: A\nline one");
}

// ---------------------------------------------------------------------------
// Semantic client text handling
// ---------------------------------------------------------------------------

#[test]
fn test_cache_key_deterministic() {
    let key1 = compute_cache_key("old", "new", "REQ-1");
    let key2 = compute_cache_key("old", "new", "REQ-1");
    assert_eq!(key1, key2);
}

#[test]
fn test_cache_key_different_content() {
    let key1 = compute_cache_key("old1", "new", "REQ-1");
    let key2 = compute_cache_key("old2", "new", "REQ-1");
    assert_ne!(key1, key2);
}

#[test]
fn cache_key_is_sixteen_hex_digits() {
    let key = compute_cache_key("a", "b", "REQ-1");
    assert_eq!(key.len(), 16);
    assert!(key.chars().all(|c| c.is_ascii_hexdigit() && !c.is_ascii_uppercase()));
    assert_ne!(key, compute_cache_key("a", "b", "REQ-2"));
}

#[test]
fn client_test_extract_json_from_code_block() {
    let response = r#"Here's the analysis:

```json
{"alignment_score": 0.85}
```

That's my assessment."#;

    let json = extract_json(response);
    assert!(json.contains("alignment_score"));
    assert!(json.starts_with('{'));
}

#[test]
fn client_test_extract_json_raw() {
    let response = r#"{"alignment_score": 0.9, "discrepancies": []}"#;
    let json = extract_json(response);
    assert_eq!(json, response);
}

#[test]
fn extract_json_exact_values() {
    assert_eq!(extract_json("x ```json\n {\"a\": 1} \n``` y"), "{\"a\": 1}");
    assert_eq!(extract_json("answer: {\"b\": 2} done"), "{\"b\": 2}");
    assert_eq!(extract_json("  no json here  "), "  no json here  ");
}

#[test]
fn reply_with_brace_order_reversed_cannot_be_cut() {
    assert_eq!(try_extract_json("} then {"), None);
    assert_eq!(try_extract_json("a {\"x\": 1} b"), Some("{\"x\": 1}".to_string()));
    assert_eq!(try_extract_json("no braces"), Some("no braces".to_string()));
    assert_eq!(topos::llm::try_extract_json("} {"), None);
    assert_eq!(topos::llm::try_extract_json("```json\n{}\n```"), Some("{}".to_string()));
}

#[test]
fn hedging_phrases_are_counted_once_each() {
    assert_eq!(hedging_counts("It MIGHT be, possibly; it might."), (2, 0));
    assert_eq!(hedging_counts("Clearly and definitely changed."), (0, 2));
    assert_eq!(hedging_counts("I'm uncertain about this, it might be different, possibly changed"), (3, 0));
    assert_eq!(hedging_counts("nothing to see"), (0, 0));
}

#[test]
fn test_build_prompt_includes_content() {
    let prompt = build_semantic_comparison_prompt("old content here", "new content here", "requirement", "REQ-1");
    assert!(prompt.contains("old content here"));
    assert!(prompt.contains("new content here"));
    assert!(prompt.contains("REQ-1"));
    assert!(prompt.contains("requirement"));
}

#[test]
fn test_discrepancy_kind_variants() {
    assert_eq!(DiscrepancyKind::MeaningChanged.as_str(), "meaning_changed");
    assert_eq!(DiscrepancyKind::ConstraintWeakened.as_str(), "constraint_weakened");
}

#[test]
fn discrepancy_kind_names_round_trip() {
    for k in [
        DiscrepancyKind::MeaningChanged,
        DiscrepancyKind::ConstraintWeakened,
        DiscrepancyKind::ConstraintStrengthened,
        DiscrepancyKind::IntentDrift,
        DiscrepancyKind::AmbiguityIntroduced,
        DiscrepancyKind::TerminologyChanged,
    ] {
        assert_eq!(DiscrepancyKind::from_name(k.as_str()), Some(k));
    }
    assert_eq!(DiscrepancyKind::from_name("bogus"), None);
}

// ---------------------------------------------------------------------------
// Hole assistant
// ---------------------------------------------------------------------------

#[test]
fn llm_test_extract_json_from_code_block() {
    let response = r#"Here's the JSON:

```json
{"suggestions": []}
```

That's it."#;

    let json = topos::llm::extract_json(response);
    assert!(json.starts_with('{'));
    assert!(json.contains("suggestions"));
}

#[test]
fn llm_test_extract_json_raw() {
    let response = r#"{"suggestions": [{"replacement": "test"}]}"#;
    let json = topos::llm::extract_json(response);
    assert_eq!(json, response);
}

fn hole_context(type_hint: Option<&str>, parent: &str, related: &[&str]) -> HoleContext {
    HoleContext {
        type_hint: type_hint.map(|t| t.to_string()),
        name: None,
        parent_context: parent.to_string(),
        surrounding_code: "field name [?]".to_string(),
        related_concepts: related.iter().map(|r| r.to_string()).collect(),
        adjacent_constraints: vec![],
        spec_name: None,
    }
}

#[test]
fn test_fallback_suggestions_with_type() {
    let plan = fallback_plan(&hole_context(Some("`String`"), "field name in Concept User", &[]));
    assert!(!plan.is_empty());
    assert_eq!(plan[0], FallbackKind::TypeHint);
}

#[test]
fn test_fallback_suggestions_id_field() {
    let plan = fallback_plan(&hole_context(None, "field user_id in Concept Order", &["User"]));
    assert!(plan.contains(&FallbackKind::IdType));
}

#[test]
fn fallback_placeholder_when_nothing_applies() {
    assert_eq!(fallback_plan(&hole_context(None, "somewhere", &[])), vec![FallbackKind::Placeholder]);
    assert_eq!(
        fallback_plan(&hole_context(None, "output of behavior login", &[])),
        vec![FallbackKind::FallibleResult]
    );
}

#[test]
fn test_build_prompt() {
    let context = HoleContext {
        type_hint: Some("`User` -> `Session`".to_string()),
        name: Some("login_result".to_string()),
        parent_context: "output of Behavior login".to_string(),
        surrounding_code: "Behavior login:\n  output: [?login_result : `User` -> `Session`]".to_string(),
        related_concepts: vec!["User".to_string(), "Session".to_string()],
        adjacent_constraints: vec!["user must be authenticated".to_string()],
        spec_name: Some("AuthSpec".to_string()),
    };

    let prompt = build_hole_prompt(&context);
    assert!(prompt.contains("AuthSpec"));
    assert!(prompt.contains("`User` -> `Session`"));
    assert!(prompt.contains("login_result"));
    assert!(prompt.contains("Related Concepts"));
}

// ---------------------------------------------------------------------------
// MCP server
// ---------------------------------------------------------------------------

fn anchor(kind: AnchorKind, attrs: &[(&str, &str)], line: usize) -> Anchor {
    let mut attributes = StrMap::new();
    for (k, v) in attrs {
        attributes.insert(k.to_string(), v.to_string());
    }
    Anchor { kind, attributes, file_path: "test.rs".to_string(), line, code_element: None }
}

#[test]
fn lookups_after_add_see_the_new_anchor_and_the_latest_wins() {
    let mut collection = AnchorCollection::new();
    collection.add(anchor(AnchorKind::Concept, &[("concept", "User")], 0));
    let mut other = anchor(AnchorKind::Behavior, &[("behavior", "login")], 3);
    other.file_path = "other.rs".to_string();
    collection.add(other);
    assert_eq!(collection.from_file("test.rs").len(), 1);
    collection.add(anchor(AnchorKind::Concept, &[("concept", "User")], 7));
    assert_eq!(collection.len(), 3);
    assert_eq!(collection.from_file("test.rs").len(), 2);
    assert_eq!(collection.from_file("test.rs")[1].line, 7);
    assert_eq!(collection.from_file("other.rs").len(), 1);
    assert_eq!(collection.concept("User").unwrap().line, 7);
    assert_eq!(collection.behavior("login").unwrap().line, 3);
    assert!(collection.concept("Order").is_none());
}

#[test]
fn test_filter_anchors() {
    let server = ToposServer::new();
    let collection = || {
        let mut collection = AnchorCollection::new();
        collection.add(anchor(AnchorKind::Concept, &[("concept", "User")], 0));
        collection.add(anchor(AnchorKind::Behavior, &[("behavior", "create_user"), ("implements", "REQ-1")], 5));
        collection
    };

    let filtered = server.filter_anchors(collection(), Some("concept"), None, None, None);
    assert_eq!(filtered.len(), 1);
    assert!(filtered.concept("User").is_some());

    let filtered = server.filter_anchors(collection(), None, None, Some("REQ-1"), None);
    assert_eq!(filtered.len(), 1);
    assert!(filtered.behavior("create_user").is_some());
}

#[test]
fn filter_without_filters_keeps_everything() {
    let server = ToposServer::new();
    let mut collection = AnchorCollection::new();
    collection.add(anchor(AnchorKind::Concept, &[("concept", "User")], 0));
    collection.add(anchor(AnchorKind::Field, &[("field", "id"), ("concept", "User")], 2));
    let filtered = server.filter_anchors(collection, None, None, None, None);
    assert_eq!(filtered.len(), 2);
}

#[test]
fn tool_names_resolve() {
    let tools = list_tools();
    assert!(!tools.is_empty());
    for t in &tools {
        assert!(tool_by_name(&t.name).is_some());
    }
    assert_eq!(tool_by_name("validate_spec"), Some(ToolName::ValidateSpec));
    assert_eq!(tool_by_name("nope"), None);
    assert_eq!(unknown_tool_message("nope"), "Unknown tool: nope");
}

#[test]
fn test_make_tool() {
    let tool = make_tool("test", "A test tool", "{\"type\": \"object\"}");
    assert_eq!(tool.name, "test");
    assert!(!tool.description.is_empty());
    assert_eq!(tool.input_schema, "{\"type\": \"object\"}");
}

#[test]
fn test_extract_spec_with_filter() {
    let server = ToposServer::new();
    let source = r#"// @topos(concept="User")
pub struct User {}

// @topos(concept="Order")
pub struct Order {}

// @topos(behavior="create_order", implements="REQ-1")
pub fn create_order() {}
"#;
    let files = vec![("test.rs".to_string(), source.to_string())];
    let paths = vec!["test.rs".to_string()];

    let filtered = server.filter_anchors(extract_anchors_from_files(&files), Some("concept"), None, None, None);
    let text = server.extract_spec("ExtractedSpec", &paths, &filtered, None);
    assert!(text.contains("User"));
    assert!(text.contains("Order"));
    assert!(!text.contains("create_order"));

    let filtered = server.filter_anchors(extract_anchors_from_files(&files), None, Some("User"), None, None);
    let text = server.extract_spec("ExtractedSpec", &paths, &filtered, None);
    assert!(text.contains("User"));
    assert!(!text.contains("Order"));
}

fn req_with_ears(id: &str, when: &str, shall: &str) -> SectionContent {
    SectionContent::Requirement(Requirement {
        id: ReqId { value: id.to_string(), span: sp() },
        title: Prose::new("Login", sp()),
        ears_clauses: vec![EarsClause { when: Prose::new(when, sp()), shall: Prose::new(shall, sp()), span: sp() }],
        acceptance: None,
        prose: vec![],
        span: sp(),
    })
}

#[test]
fn edited_ears_clause_is_reported() {
    let before = file_with("Test", vec![req_with_ears("REQ-1", "user logs in", "the system must authenticate")]);
    let after = file_with("Test", vec![req_with_ears("REQ-1", "user logs in with SSO", "the system must authenticate")]);
    let report = diff_files(&before, &after);
    assert_eq!(report.modified_requirements.len(), 1);
    assert_eq!(report.modified_requirements[0].changes, vec!["EARS 'when' clause changed".to_string()]);
    assert!(report.format_text().contains("  ~ REQ-1 (EARS 'when' clause changed)"));

    let after = file_with("Test", vec![req_with_ears("REQ-1", "user logs in", "the system should authenticate")]);
    let report = diff_files(&before, &after);
    assert_eq!(report.modified_requirements[0].changes, vec!["EARS 'shall' clause changed".to_string()]);
}
