//! Symbols, references, traceability, diagnostics, holes, foreign blocks,
//! the unified symbol table and context compilation.
//!
//! Each specification is written down as the syntax tree that parsing its
//! source (quoted beside it) gives.

use topos::anchors::{attributes_from_matches, extract_anchors, validate_anchors};
use topos::ast::{
    visit_order, Behavior, Concept, Constraint, VisitKind, Field, ForeignBlock, Identifier, Prose, Reference as TypeRef, ReqId, Requirement, Section,
    SectionContent, SourceFile, SpecDecl, Task, TaskField, TaskFieldKind, TaskId, TypeExpr, TypedHole,
};
use topos::context::{compile_context, format_context, CompileOptions, OutputFormat};
use topos::debug_text::constraint_text;
use topos::diagnostics::{anchor_diagnostics, detailed_anchor_diagnostics, diagnostics, DiagnosticKind};
use topos::foreign::{add_match_symbols, foreign_symbols, ForeignSymbolKind, ForeignSymbols};
use topos::regex_match::RegexMatch;
use topos::holes::{
    extract_hole_from_prose, extract_holes, listed_concepts, parse_hole_content, HoleParent, HoleWithContext,
};
use topos::polyglot::unified_symbols;
use topos::resolve::{resolve, resolve_references, ReferenceKind};
use topos::span::Span;
use topos::symbols::{symbols, Symbol, SymbolKind, SymbolTable};
use topos::traceability::traceability;

fn sp(start: u32) -> Span {
    Span::new(start, start + 1, start / 80, start % 80, start / 80, start % 80 + 1)
}

fn ident(s: &str, at: u32) -> Identifier {
    Identifier::new(s, sp(at))
}

fn prose(s: &str) -> Prose {
    Prose::new(s, sp(0))
}

fn ty(name: &str, at: u32) -> Option<TypeExpr> {
    Some(TypeExpr::Reference(TypeRef::new(name, sp(at))))
}

fn hole(content: Option<&str>, at: u32) -> Option<TypeExpr> {
    Some(TypeExpr::Hole(TypedHole { content: content.map(|c| c.to_string()), span: sp(at) }))
}

fn field(name: &str, t: Option<TypeExpr>, at: u32) -> Field {
    Field { name: ident(name, at), ty: t, constraints: vec![], span: sp(at) }
}

fn concept(name: &str, fields: Vec<Field>, at: u32) -> SectionContent {
    SectionContent::Concept(Concept { name: ident(name, at), fields, prose: vec![], span: sp(at) })
}

fn requirement(id: &str, title: &str, desc: &str, at: u32) -> SectionContent {
    SectionContent::Requirement(Requirement {
        id: ReqId { value: id.to_string(), span: sp(at) },
        title: prose(title),
        ears_clauses: vec![],
        acceptance: None,
        prose: vec![prose(desc)],
        span: sp(at),
    })
}

fn task(id: &str, title: &str, refs: &[&str], fields: &[(TaskFieldKind, &str)], at: u32) -> SectionContent {
    SectionContent::Task(Task {
        id: TaskId { value: id.to_string(), span: sp(at) },
        title: prose(title),
        req_refs: refs.iter().map(|r| ReqId { value: r.to_string(), span: sp(at) }).collect(),
        fields: fields.iter().map(|(k, v)| TaskField { kind: *k, value: prose(v), span: sp(at) }).collect(),
        prose: vec![],
        span: sp(at),
    })
}

/// A fenced block: one paragraph per non-empty line.
fn foreign(language: &str, body: &str, at: u32) -> SectionContent {
    SectionContent::ForeignBlock(ForeignBlock {
        language: language.to_string(),
        content: body.lines().filter(|l| !l.trim().is_empty()).map(prose).collect(),
        span: sp(at),
    })
}

fn section(header: &str, contents: Vec<SectionContent>) -> Section {
    Section { header: prose(header), contents, span: sp(0) }
}

fn spec_file(sections: Vec<Section>) -> SourceFile {
    SourceFile {
        spec: Some(SpecDecl { name: ident("Test", 5), span: sp(0) }),
        imports: vec![],
        sections,
        prose: vec![],
        span: sp(0),
    }
}

const PENDING: (TaskFieldKind, &str) = (TaskFieldKind::Status, "pending");

// ---------------------------------------------------------------------------
// Symbols
// ---------------------------------------------------------------------------

#[test]
fn test_empty_symbols() {
    let table = symbols(&spec_file(vec![]));
    assert!(table.symbols.is_empty());
}

#[test]
fn test_requirement_symbol() {
    // ## REQ-1: Test Requirement / Description here.
    let file = spec_file(vec![section(
        "Requirements",
        vec![requirement("REQ-1", "Test Requirement", "Description here.", 30)],
    )]);
    let table = symbols(&file);

    assert!(table.get_requirement("REQ-1").is_some());
    let req = table.get_requirement("REQ-1").unwrap();
    assert_eq!(req.kind, SymbolKind::Requirement);
}

#[test]
fn test_concept_symbol() {
    let file = spec_file(vec![section(
        "Concepts",
        vec![concept(
            "User",
            vec![field("name", ty("String", 45), 40), field("email", ty("String", 70), 65)],
            25,
        )],
    )]);
    let table = symbols(&file);

    assert!(table.get_concept("User").is_some());
    let concept = table.get_concept("User").unwrap();
    assert_eq!(concept.kind, SymbolKind::Concept);

    assert!(table.get("User.name").is_some());
    assert!(table.get("User.email").is_some());
}

#[test]
fn test_task_symbol() {
    let file = spec_file(vec![section(
        "Tasks",
        vec![task("TASK-1", "Implement Feature", &["REQ-1"], &[PENDING], 20)],
    )]);
    let table = symbols(&file);
    assert!(table.get_task("TASK-1").is_some());
}

#[test]
fn added_symbol_is_found_under_its_name_and_kind() {
    let mut table = SymbolTable::new();
    let sym = |name: &str, kind: SymbolKind| Symbol {
        name: name.to_string(),
        kind,
        title: None,
        status: None,
        span: Span::dummy(),
    };
    table.add(sym("Order", SymbolKind::Concept));
    table.add(sym("Order.id", SymbolKind::Field));
    assert_eq!(table.get("Order").unwrap().kind, SymbolKind::Concept);
    assert!(table.get_concept("Order").is_some());
    assert!(table.get("Order.id").is_some());
    assert!(table.get_concept("Order.id").is_none());
    assert!(table.get_requirement("Order").is_none());
}

#[test]
fn symbol_table_keeps_last_definition() {
    let file = spec_file(vec![section(
        "Requirements",
        vec![requirement("REQ-1", "First", "A.", 30), requirement("REQ-1", "Second", "B.", 60)],
    )]);
    let table = symbols(&file);
    assert_eq!(table.symbols.len(), 1);
    assert_eq!(table.get("REQ-1").unwrap().title, Some("Second".to_string()));
}

// ---------------------------------------------------------------------------
// References
// ---------------------------------------------------------------------------

#[test]
fn test_resolve_requirement_reference() {
    let file = spec_file(vec![
        section("Requirements", vec![requirement("REQ-1", "First Requirement", "Description here.", 30)]),
        section("Tasks", vec![task("TASK-1", "Implement REQ-1", &["REQ-1"], &[PENDING], 90)]),
    ]);
    let resolved = resolve_references(&file);

    let req_refs: Vec<_> =
        resolved.references.iter().filter(|r| r.reference.kind == ReferenceKind::Requirement).collect();

    assert!(!req_refs.is_empty(), "Should find requirement references");
    assert!(req_refs.iter().any(|r| r.symbol.is_some()), "REQ-1 reference should be resolved");
}

#[test]
fn a_name_resolves_exactly_when_the_table_holds_it() {
    let mut table = SymbolTable::new();
    table.add(Symbol { name: "REQ-1".to_string(), kind: SymbolKind::Requirement, title: None, status: None, span: sp(3) });
    table.add(Symbol { name: "User".to_string(), kind: SymbolKind::Concept, title: None, status: None, span: sp(9) });
    for name in ["REQ-1", "User", "Missing"] {
        assert_eq!(resolve(&table, name).is_some(), table.get(name).is_some());
    }
    assert_eq!(resolve(&table, "User").unwrap().kind, SymbolKind::Concept);
    assert!(resolve(&table, "Missing").is_none());
}

#[test]
fn test_unresolved_reference() {
    let file = spec_file(vec![section(
        "Tasks",
        vec![task("TASK-1", "Implement Missing", &["REQ-MISSING"], &[PENDING], 20)],
    )]);
    let resolved = resolve_references(&file);

    let unresolved = resolved.unresolved();
    assert!(!unresolved.is_empty(), "Should have unresolved reference");
    assert_eq!(unresolved[0].reference.name, "REQ-MISSING");
}

#[test]
fn test_resolve_type_reference() {
    let file = spec_file(vec![section(
        "Concepts",
        vec![
            concept("User", vec![field("name", ty("String", 45), 40)], 25),
            concept("Post", vec![field("author", ty("User", 90), 80)], 70),
        ],
    )]);
    let resolved = resolve_references(&file);

    let type_refs: Vec<_> =
        resolved.references.iter().filter(|r| r.reference.kind == ReferenceKind::Type).collect();

    let user_ref = type_refs.iter().find(|r| r.reference.name == "User");
    assert!(user_ref.is_some(), "Should find User type reference");
    assert!(user_ref.unwrap().symbol.is_some(), "User reference should be resolved");
}

// ---------------------------------------------------------------------------
// Traceability
// ---------------------------------------------------------------------------

#[test]
fn test_empty_graph() {
    let graph = traceability(&spec_file(vec![]));
    assert!(graph.nodes.is_empty());
}

#[test]
fn test_requirement_task_link() {
    let file = spec_file(vec![
        section("Requirements", vec![requirement("REQ-1", "First Requirement", "Description.", 30)]),
        section("Tasks", vec![task("TASK-1", "Implement First", &["REQ-1"], &[PENDING], 90)]),
    ]);
    let graph = traceability(&file);

    assert!(graph.nodes.contains_key("REQ-1"));
    assert!(graph.nodes.contains_key("TASK-1"));

    let tasks = graph.tasks_for_req("REQ-1");
    assert_eq!(tasks, vec!["TASK-1".to_string()]);

    let reqs = graph.reqs_for_task("TASK-1");
    assert_eq!(reqs, vec!["REQ-1".to_string()]);
}

#[test]
fn test_uncovered_requirement() {
    let file = spec_file(vec![
        section(
            "Requirements",
            vec![
                requirement("REQ-1", "Covered Requirement", "Description.", 30),
                requirement("REQ-2", "Uncovered Requirement", "Description.", 80),
            ],
        ),
        section("Tasks", vec![task("TASK-1", "Implement First", &["REQ-1"], &[PENDING], 140)]),
    ]);
    let graph = traceability(&file);

    let uncovered = graph.uncovered_requirements();
    assert!(uncovered.contains(&"REQ-1".to_string()));
    assert!(uncovered.contains(&"REQ-2".to_string()));

    let untasked = graph.untasked_requirements();
    assert!(untasked.contains(&"REQ-2".to_string()));
    assert!(!untasked.contains(&"REQ-1".to_string()));
}

#[test]
fn every_untasked_requirement_has_no_tasks_and_every_taskless_one_is_untasked() {
    let file = spec_file(vec![
        section(
            "Requirements",
            vec![
                requirement("REQ-1", "One", "Desc.", 30),
                requirement("REQ-2", "Two", "Desc.", 60),
                requirement("REQ-3", "Three", "Desc.", 90),
            ],
        ),
        section("Tasks", vec![task("TASK-1", "Do", &["REQ-2"], &[PENDING], 140)]),
    ]);
    let graph = traceability(&file);
    let untasked = graph.untasked_requirements();
    for r in &untasked {
        assert!(graph.tasks_for_req(r).is_empty());
    }
    for r in ["REQ-1", "REQ-2", "REQ-3"] {
        assert_eq!(untasked.contains(&r.to_string()), graph.tasks_for_req(r).is_empty());
    }
    assert_eq!(untasked.len(), 2);
}

#[test]
fn test_multiple_links() {
    let file = spec_file(vec![
        section(
            "Requirements",
            vec![requirement("REQ-1", "First", "Desc.", 30), requirement("REQ-2", "Second", "Desc.", 60)],
        ),
        section("Tasks", vec![task("TASK-1", "Multi-req", &["REQ-1", "REQ-2"], &[PENDING], 100)]),
    ]);
    let graph = traceability(&file);

    let reqs = graph.reqs_for_task("TASK-1");
    assert!(reqs.contains(&"REQ-1".to_string()));
    assert!(reqs.contains(&"REQ-2".to_string()));
}

#[test]
fn link_is_recorded_in_both_directions_once() {
    let file = spec_file(vec![
        section("Requirements", vec![requirement("REQ-1", "First", "Desc.", 30)]),
        section("Tasks", vec![task("TASK-1", "Twice", &["REQ-1", "REQ-1"], &[PENDING], 100)]),
    ]);
    let graph = traceability(&file);
    assert_eq!(graph.tasks_for_req("REQ-1"), vec!["TASK-1".to_string()]);
    assert_eq!(graph.reqs_for_task("TASK-1"), vec!["REQ-1".to_string()]);
    assert!(graph.reqs_for_task("TASK-2").is_empty());
}

// ---------------------------------------------------------------------------
// Diagnostics
// ---------------------------------------------------------------------------

#[test]
fn test_no_diagnostics_for_valid_spec() {
    let file = spec_file(vec![
        section("Requirements", vec![requirement("REQ-1", "First Requirement", "Description.", 30)]),
        section("Tasks", vec![task("TASK-1", "Implement First", &["REQ-1"], &[PENDING], 90)]),
    ]);
    let diags = diagnostics(&file);
    assert!(!diags.has_errors(), "Expected no errors: {:?}", diags.diagnostics);
}

#[test]
fn test_unresolved_requirement_reference() {
    let file = spec_file(vec![section(
        "Tasks",
        vec![task("TASK-1", "Implement Missing", &["REQ-MISSING"], &[PENDING], 20)],
    )]);
    let diags = diagnostics(&file);

    assert!(diags.has_errors(), "Expected unresolved reference error");
    assert!(diags.diagnostics.iter().any(|d| d.kind == DiagnosticKind::UnresolvedReference));
}

#[test]
fn test_untasked_requirement_warning() {
    let file = spec_file(vec![section(
        "Requirements",
        vec![requirement("REQ-1", "Lonely Requirement", "No tasks reference this.", 30)],
    )]);
    let diags = diagnostics(&file);

    let warnings = diags.warnings();
    assert!(!warnings.is_empty(), "Expected untasked requirement warning");
    assert!(warnings.iter().any(|d| d.kind == DiagnosticKind::UntaskedRequirement));
}

#[test]
fn test_primitive_types_not_errors() {
    let file = spec_file(vec![section(
        "Concepts",
        vec![concept(
            "User",
            vec![
                field("name", ty("String", 45), 40),
                field("age", ty("Int", 70), 65),
                field("active", ty("Bool", 95), 90),
            ],
            25,
        )],
    )]);
    let diags = diagnostics(&file);
    let errors = diags.errors();
    assert!(errors.is_empty(), "Primitive types should not cause errors: {:?}", errors);
}

#[test]
fn requirement_defined_twice_is_reported_once_at_second_definition() {
    // spec T / # Requirements / ## REQ-1: A / ## REQ-1: B
    let file = spec_file(vec![section(
        "Requirements",
        vec![requirement("REQ-1", "A", "x", 30), requirement("REQ-1", "B", "y", 60)],
    )]);
    let diags = diagnostics(&file);
    let dups: Vec<_> =
        diags.diagnostics.iter().filter(|d| d.kind == DiagnosticKind::DuplicateDefinition).collect();
    assert_eq!(dups.len(), 1);
    assert_eq!(dups[0].message, "Duplicate requirement definition: 'REQ-1'");
    assert_eq!(dups[0].span, sp(60));
    assert!(diags.has_errors());
    // The duplicate errors come last.
    assert_eq!(diags.diagnostics.last().unwrap().kind, DiagnosticKind::DuplicateDefinition);
}

#[test]
fn names_of_different_kinds_do_not_clash() {
    let file = spec_file(vec![
        section("Requirements", vec![requirement("REQ-1", "A", "x", 30)]),
        section(
            "Tasks",
            vec![
                task("TASK-1", "One", &["REQ-1"], &[PENDING], 90),
                task("TASK-1", "Again", &["REQ-1"], &[PENDING], 120),
                task("TASK-1", "Third", &["REQ-1"], &[PENDING], 150),
            ],
        ),
        section("Concepts", vec![concept("User", vec![], 200), concept("Order", vec![], 230)]),
    ]);
    let diags = diagnostics(&file);
    let dups: Vec<_> =
        diags.diagnostics.iter().filter(|d| d.kind == DiagnosticKind::DuplicateDefinition).collect();
    assert_eq!(dups.len(), 1);
    assert_eq!(dups[0].message, "Duplicate task definition: 'TASK-1'");
    assert_eq!(dups[0].span, sp(120));
}

#[test]
fn concept_defined_twice_is_reported() {
    let file = spec_file(vec![section("Concepts", vec![concept("User", vec![], 25), concept("User", vec![], 50)])]);
    let diags = diagnostics(&file);
    let errors = diags.errors();
    assert_eq!(errors.len(), 1);
    assert_eq!(errors[0].kind, DiagnosticKind::DuplicateDefinition);
    assert_eq!(errors[0].message, "Duplicate concept definition: 'User'");
}

#[test]
fn test_unresolved_concept_reference() {
    let file = spec_file(vec![section(
        "Concepts",
        vec![concept("Post", vec![field("author", ty("UnknownType", 45), 40)], 25)],
    )]);
    let diags = diagnostics(&file);

    assert!(diags.has_errors(), "Expected unresolved type error");
    let error = diags.errors()[0];
    assert!(error.message.contains("UnknownType"));
}

#[test]
fn test_anchor_diagnostics_invalid_reference() {
    let rust_source = r#"
// @topos(req="REQ-NONEXISTENT", concept="MissingConcept")
pub struct Order {}
"#;
    let anchors = extract_anchors(rust_source, "test.rs");
    let symbols = SymbolTable::new();
    let validation = validate_anchors(&anchors, &symbols);

    let diags = anchor_diagnostics(&validation);
    assert!(diags.has_errors());

    let errors = diags.errors();
    assert_eq!(errors.len(), 2);

    assert!(errors.iter().any(|e| e.kind == DiagnosticKind::InvalidAnchor));
    assert!(errors.iter().any(|e| e.message.contains("REQ-NONEXISTENT")));
    assert!(errors.iter().any(|e| e.message.contains("MissingConcept")));
}

#[test]
fn test_anchor_diagnostics_orphan_elements() {
    let anchors = extract_anchors("pub fn foo() {}", "test.rs");

    let mut symbols = SymbolTable::new();
    symbols.add(Symbol {
        name: "REQ-ORPHAN".to_string(),
        kind: SymbolKind::Requirement,
        title: Some("Orphan Requirement".to_string()),
        status: None,
        span: Span::dummy(),
    });

    let validation = validate_anchors(&anchors, &symbols);
    let diags = anchor_diagnostics(&validation);

    let warnings = diags.warnings();
    assert!(!warnings.is_empty());
    assert!(warnings.iter().any(|w| w.kind == DiagnosticKind::OrphanSpecElement));
    assert!(warnings.iter().any(|w| w.message.contains("REQ-ORPHAN")));
}

#[test]
fn test_detailed_anchor_diagnostics() {
    let rust_source = r#"
// @topos(concept="NonExistent")
pub struct Test {}
"#;
    let anchors = extract_anchors(rust_source, "src/models.rs");
    let symbols = SymbolTable::new();
    let validation = validate_anchors(&anchors, &symbols);

    let diags = detailed_anchor_diagnostics(&validation);
    assert!(!diags.is_empty());

    let error = &diags[0];
    assert_eq!(error.kind, DiagnosticKind::InvalidAnchor);
    assert_eq!(error.file_path, "src/models.rs");
    assert_eq!(error.line, 1);
    assert!(error.message.contains("NonExistent"));
}

#[test]
fn anchor_to_existing_concept_is_valid() {
    let rust_source = "// @topos(concept=\"Order\")\npub struct Order {}\n";
    let anchors = extract_anchors(rust_source, "src/order.rs");
    let file = spec_file(vec![section("Concepts", vec![concept("Order", vec![], 25)])]);
    let table = symbols(&file);
    let validation = validate_anchors(&anchors, &table);
    assert_eq!(validation.valid, vec![0]);
    assert!(validation.invalid.is_empty());
    assert!(validation.orphan_spec_elements.is_empty());
    assert!(!anchor_diagnostics(&validation).has_errors());
}

// ---------------------------------------------------------------------------
// Holes
// ---------------------------------------------------------------------------

#[test]
fn test_parse_hole_content_empty() {
    let (name, ty) = parse_hole_content(&None);
    assert!(name.is_none());
    assert!(ty.is_none());
}

#[test]
fn test_parse_hole_content_type_only() {
    let (name, ty) = parse_hole_content(&Some("`String` -> `Int`".to_string()));
    assert!(name.is_none());
    assert_eq!(ty, Some("`String` -> `Int`".to_string()));
}

#[test]
fn test_parse_hole_content_name_only() {
    let (name, ty) = parse_hole_content(&Some("payment_flow".to_string()));
    assert_eq!(name, Some("payment_flow".to_string()));
    assert!(ty.is_none());
}

#[test]
fn test_parse_hole_content_name_and_type() {
    let (name, ty) = parse_hole_content(&Some("payment_flow : `Payment` -> `Receipt`".to_string()));
    assert_eq!(name, Some("payment_flow".to_string()));
    assert_eq!(ty, Some("`Payment` -> `Receipt`".to_string()));
}

#[test]
fn test_extract_holes_from_concept() {
    let file = spec_file(vec![section(
        "Concepts",
        vec![concept(
            "Order",
            vec![
                field("id", ty("String", 45), 40),
                field("status", hole(None, 75), 60),
                field("total", hole(Some("`Currency`"), 100), 85),
            ],
            25,
        )],
    )]);
    let holes = extract_holes(&file);

    assert_eq!(holes.len(), 2);

    let status_hole = &holes.holes[0];
    assert!(status_hole.name.is_none());
    assert!(status_hole.type_hint.is_none());
    match &status_hole.parent {
        HoleParent::ConceptField { concept_name, field_name } => {
            assert_eq!(concept_name, "Order");
            assert_eq!(field_name, "status");
        },
        _ => panic!("Expected ConceptField parent"),
    }

    let total_hole = &holes.holes[1];
    assert!(total_hole.name.is_none());
    assert_eq!(total_hole.type_hint, Some("`Currency`".to_string()));
}

#[test]
fn test_extract_holes_with_related_concepts() {
    let file = spec_file(vec![section(
        "Concepts",
        vec![
            concept("User", vec![field("id", None, 40)], 25),
            concept(
                "Order",
                vec![field("owner", ty("User", 80), 70), field("status", hole(None, 105), 95)],
                55,
            ),
        ],
    )]);
    let holes = extract_holes(&file);

    assert_eq!(holes.len(), 1);
    let hole = &holes.holes[0];
    assert!(hole.related_concepts.contains(&"User".to_string()));
}

#[test]
fn test_find_hole_at_offset() {
    let file = spec_file(vec![section(
        "Concepts",
        vec![concept("Order", vec![field("status", hole(None, 55), 40)], 25)],
    )]);
    let holes = extract_holes(&file);

    let hole = holes.holes.first().unwrap();
    let found = holes.find_at_offset(hole.span().start);
    assert!(found.is_some());
}

#[test]
fn test_prompt_context() {
    let hole = HoleWithContext {
        hole: TypedHole { content: Some("payment : `Money`".to_string()), span: Span::default() },
        name: Some("payment".to_string()),
        type_hint: Some("`Money`".to_string()),
        parent: HoleParent::ConceptField { concept_name: "Order".to_string(), field_name: "total".to_string() },
        related_concepts: vec!["User".to_string(), "Product".to_string()],
        adjacent_constraints: vec!["unique".to_string()],
    };

    let ctx = hole.prompt_context();
    assert!(ctx.contains("Field 'total' of concept 'Order'"));
    assert!(ctx.contains("payment"));
    assert!(ctx.contains("`Money`"));
    assert!(ctx.contains("User"));
    assert!(ctx.contains("unique"));
}

#[test]
fn test_extract_hole_from_prose() {
    let prose = "The input should be [? `Amount`] representing the payment";
    let hole = extract_hole_from_prose(prose, Span::default());
    assert!(hole.is_some());
    let hole = hole.unwrap();
    assert_eq!(hole.content, Some("`Amount`".to_string()));
}

#[test]
fn test_extract_hole_from_prose_empty() {
    let prose = "The input should be [?] representing the payment";
    let hole = extract_hole_from_prose(prose, Span::default());
    assert!(hole.is_some());
    assert!(hole.unwrap().content.is_none());
}

#[test]
fn test_no_hole_in_prose() {
    let prose = "The input should be a string representing the payment";
    let hole = extract_hole_from_prose(prose, Span::default());
    assert!(hole.is_none());
}

#[test]
fn unclosed_hole_is_not_a_hole() {
    assert!(extract_hole_from_prose("a [? never closed", Span::default()).is_none());
    let h = extract_hole_from_prose("x [?   ] y", Span::default()).unwrap();
    assert_eq!(h.content, Some(String::new()));
}

// ---------------------------------------------------------------------------
// Foreign blocks
// ---------------------------------------------------------------------------

#[test]
fn test_typespec_model_extraction() {
    let body = "model User {\n  id: string;\n  email: string;\n}\n\nmodel Order {\n  id: string;\n  items: Item[];\n}\n\nenum OrderStatus {\n  pending,\n  shipped,\n  delivered,\n}\n";
    let file = spec_file(vec![section("API Types", vec![foreign("typespec", body, 30)])]);
    let symbols = foreign_symbols(&file);

    assert!(symbols.get("User").is_some());
    assert!(symbols.get("Order").is_some());
    assert!(symbols.get("OrderStatus").is_some());

    let user = symbols.get("User").unwrap();
    assert_eq!(user.kind, ForeignSymbolKind::Model);
    assert_eq!(user.language, "typespec");
}

#[test]
fn test_typespec_operations() {
    let body = "namespace Api {\n  op getUser(id: string): User;\n  op createUser(data: CreateUserInput): User;\n}\n";
    let file = spec_file(vec![section("API", vec![foreign("typespec", body, 30)])]);
    let symbols = foreign_symbols(&file);

    assert!(symbols.get("Api").is_some());
    assert!(symbols.get("getUser").is_some());
    assert!(symbols.get("createUser").is_some());

    let get_user = symbols.get("getUser").unwrap();
    assert_eq!(get_user.kind, ForeignSymbolKind::Operation);
}

#[test]
fn test_cue_schema_extraction() {
    let body = "package config\n\nDatabase: {\n  host: string\n  port: int\n}\n\nConfig: {\n  database: Database\n  debug: bool\n}\n";
    let file = spec_file(vec![section("Config", vec![foreign("cue", body, 30)])]);
    let symbols = foreign_symbols(&file);

    assert!(symbols.get("Database").is_some());
    assert!(symbols.get("Config").is_some());
    assert!(symbols.get("config").is_some());

    let db_model = symbols.get("Database").unwrap();
    assert_eq!(db_model.kind, ForeignSymbolKind::Model);
    assert_eq!(db_model.language, "cue");
}

#[test]
fn symbols_by_kind_partition_all_symbols() {
    let body = "interface User {\n  id: string;\n}\n\ntype UserId = string;\n\nenum Status {\n  Active,\n}\n";
    let file = spec_file(vec![section("Types", vec![foreign("typescript", body, 30)])]);
    let symbols = foreign_symbols(&file);
    let kinds = [
        ForeignSymbolKind::Model,
        ForeignSymbolKind::Interface,
        ForeignSymbolKind::TypeAlias,
        ForeignSymbolKind::Enum,
        ForeignSymbolKind::Union,
        ForeignSymbolKind::Schema,
        ForeignSymbolKind::Namespace,
        ForeignSymbolKind::Operation,
    ];
    let total: usize = kinds.iter().map(|k| symbols.by_kind(*k).len()).sum();
    assert_eq!(total, symbols.symbols.len());
    for k in kinds {
        assert!(symbols.by_kind(k).iter().all(|s| s.kind == k));
    }
}

#[test]
fn test_typescript_interface_extraction() {
    let body = "interface User {\n  id: string;\n  name: string;\n}\n\ntype UserId = string;\n\nenum Status {\n  Active,\n  Inactive,\n}\n";
    let file = spec_file(vec![section("Types", vec![foreign("typescript", body, 30)])]);
    let symbols = foreign_symbols(&file);

    assert!(symbols.get("User").is_some());
    assert!(symbols.get("UserId").is_some());
    assert!(symbols.get("Status").is_some());

    let user = symbols.get("User").unwrap();
    assert_eq!(user.kind, ForeignSymbolKind::Interface);
    assert_eq!(user.language, "typescript");
}

#[test]
fn test_empty_foreign_block() {
    let file = spec_file(vec![section("Types", vec![foreign("typespec", "", 30)])]);
    let symbols = foreign_symbols(&file);
    assert!(symbols.symbols.is_empty());
}

#[test]
fn test_unknown_language_fallback() {
    let body = "message User {\n  string id = 1;\n  string name = 2;\n}\n\nenum Status {\n  UNKNOWN = 0;\n  ACTIVE = 1;\n}\n";
    let file = spec_file(vec![section("Proto", vec![foreign("proto", body, 30)])]);
    let symbols = foreign_symbols(&file);
    assert!(symbols.get("User").is_some() || symbols.symbols.is_empty());
}

#[test]
fn test_multiple_foreign_blocks() {
    let file = spec_file(vec![
        section("Types", vec![foreign("typespec", "model User {\n  id: string;\n}\n", 30)]),
        section("Config", vec![foreign("cue", "AppConfig: {\n  name: string\n}\n", 90)]),
    ]);
    let symbols = foreign_symbols(&file);

    assert!(symbols.get("User").is_some());
    assert!(symbols.get("AppConfig").is_some());
    assert_eq!(symbols.get("User").unwrap().language, "typespec");
    assert_eq!(symbols.get("AppConfig").unwrap().language, "cue");
}

#[test]
fn test_by_kind_filter() {
    let body = "model User {}\ninterface UserService {}\nenum Status {}\n";
    let file = spec_file(vec![section("Types", vec![foreign("typespec", body, 30)])]);
    let symbols = foreign_symbols(&file);

    let models = symbols.by_kind(ForeignSymbolKind::Model);
    let enums = symbols.by_kind(ForeignSymbolKind::Enum);

    assert_eq!(models.len(), 1);
    assert_eq!(models[0].name, "User");
    assert_eq!(enums.len(), 1);
    assert_eq!(enums[0].name, "Status");
}

// ---------------------------------------------------------------------------
// Unified symbols
// ---------------------------------------------------------------------------

#[test]
fn test_unified_resolution_topos_first() {
    let file = spec_file(vec![section(
        "Concepts",
        vec![
            concept("User", vec![field("id", None, 40)], 25),
            foreign("typespec", "model Order {\n  id: string;\n}\n", 60),
        ],
    )]);
    let table = unified_symbols(&file);

    let user = table.get("User");
    assert!(user.is_some());
    assert!(user.unwrap().is_topos());

    let order = table.get("Order");
    assert!(order.is_some());
    assert!(order.unwrap().is_foreign());
}

#[test]
fn test_type_resolution() {
    let file = spec_file(vec![section(
        "Concepts",
        vec![
            concept("LocalType", vec![field("value", None, 40)], 25),
            foreign("typespec", "model ForeignModel {}\ninterface ForeignInterface {}\nenum ForeignEnum {}\n", 60),
        ],
    )]);
    let table = unified_symbols(&file);

    assert!(table.get_type("LocalType").is_some());
    assert!(table.get_type("ForeignModel").is_some());
    assert!(table.get_type("ForeignInterface").is_some());
    assert!(table.get_type("ForeignEnum").is_some());
}

#[test]
fn test_hover_docs_topos() {
    let file = spec_file(vec![section(
        "Requirements",
        vec![requirement("REQ-1", "User Authentication", "Users must be able to log in.", 30)],
    )]);
    let table = unified_symbols(&file);

    let req = table.get("REQ-1").unwrap();
    let docs = req.hover_docs();
    assert!(docs.contains("requirement"));
    assert!(docs.contains("REQ-1"));
    assert!(docs.contains("User Authentication"));
}

#[test]
fn test_hover_docs_foreign() {
    let file = spec_file(vec![section("Types", vec![foreign("typespec", "model User {\n  id: string;\n}\n", 30)])]);
    let table = unified_symbols(&file);

    let user = table.get("User").unwrap();
    let docs = user.hover_docs();
    assert!(docs.contains("model"));
    assert!(docs.contains("User"));
    assert!(docs.contains("typespec"));
}

#[test]
fn test_all_types() {
    let file = spec_file(vec![section(
        "Concepts",
        vec![
            concept("A", vec![field("x", None, 40)], 25),
            concept("B", vec![field("y", None, 60)], 50),
            foreign("typespec", "model C {}\ninterface D {}\nop someOp(): void;\n", 80),
        ],
    )]);
    let table = unified_symbols(&file);

    let types = table.all_types();
    let names: Vec<_> = types.iter().map(|t| t.name().to_string()).collect();

    assert!(names.contains(&"A".to_string()));
    assert!(names.contains(&"B".to_string()));
    assert!(names.contains(&"C".to_string()));
    assert!(names.contains(&"D".to_string()));
    assert!(!names.contains(&"someOp".to_string()));
}

#[test]
fn test_kind_labels() {
    let file = spec_file(vec![
        section("Requirements", vec![requirement("REQ-1", "Test", "Description.", 30)]),
        section("Concepts", vec![concept("User", vec![field("id", None, 80)], 70)]),
        section("Tasks", vec![task("TASK-1", "Do thing", &["REQ-1"], &[PENDING], 110)]),
        section("Types", vec![foreign("typespec", "model Order {}\ninterface Api {}\nenum Status {}\n", 150)]),
    ]);
    let table = unified_symbols(&file);

    assert_eq!(table.get("REQ-1").unwrap().kind_label(), "requirement");
    assert_eq!(table.get("User").unwrap().kind_label(), "concept");
    assert_eq!(table.get("TASK-1").unwrap().kind_label(), "task");
    assert_eq!(table.get("Order").unwrap().kind_label(), "model");
    assert_eq!(table.get("Api").unwrap().kind_label(), "interface");
    assert_eq!(table.get("Status").unwrap().kind_label(), "enum");
}

// ---------------------------------------------------------------------------
// Context compilation
// ---------------------------------------------------------------------------

fn auth_spec() -> SourceFile {
    spec_file(vec![
        section(
            "Requirements",
            vec![
                requirement(
                    "REQ-AUTH-1",
                    "User Authentication",
                    "Users must authenticate before accessing the system.",
                    30,
                ),
                requirement("REQ-AUTH-2", "Session Management", "Sessions must expire after inactivity.", 120),
            ],
        ),
        section(
            "Concepts",
            vec![
                concept(
                    "User",
                    vec![
                        field("id", ty("UUID", 230), 220),
                        field("email", ty("Email", 250), 240),
                        field("passwordHash", ty("String", 280), 260),
                    ],
                    200,
                ),
                concept(
                    "Session",
                    vec![
                        field("token", ty("String", 330), 320),
                        field("userId", ty("UUID", 350), 340),
                        field("expiresAt", ty("DateTime", 380), 360),
                    ],
                    300,
                ),
            ],
        ),
        section(
            "Tasks",
            vec![
                task(
                    "TASK-AUTH-1",
                    "Implement Login",
                    &["REQ-AUTH-1"],
                    &[PENDING, (TaskFieldKind::File, "src/auth/login.rs")],
                    420,
                ),
                task(
                    "TASK-AUTH-2",
                    "Add Session Timeout",
                    &["REQ-AUTH-1", "REQ-AUTH-2"],
                    &[PENDING],
                    500,
                ),
            ],
        ),
    ])
}

#[test]
fn test_compile_context_basic() {
    let context = compile_context(&auth_spec(), "TASK-AUTH-1", CompileOptions::default());
    assert!(context.is_some());
    let ctx = context.unwrap();
    assert_eq!(ctx.task_id, "TASK-AUTH-1");
    assert!(!ctx.requirements.is_empty());
}

#[test]
fn test_compile_context_with_behaviors() {
    let options = CompileOptions { include_behaviors: true, ..CompileOptions::default() };
    let context = compile_context(&auth_spec(), "TASK-AUTH-1", options);
    assert!(context.is_some());
    let ctx = context.unwrap();
    assert!(!ctx.concepts.is_empty());
}

#[test]
fn test_compile_context_missing_task() {
    let context = compile_context(&auth_spec(), "TASK-NONEXISTENT", CompileOptions::default());
    assert!(context.is_none());
}

#[test]
fn test_format_markdown() {
    let context = compile_context(&auth_spec(), "TASK-AUTH-1", CompileOptions::default()).unwrap();
    let md = format_context(&context, OutputFormat::Markdown);
    assert!(md.contains("TASK-AUTH-1"));
    assert!(md.contains("REQ-AUTH-1"));
}

#[test]
fn test_format_cursor() {
    let context = compile_context(&auth_spec(), "TASK-AUTH-1", CompileOptions::default()).unwrap();
    let mdc = format_context(&context, OutputFormat::Cursor);
    assert!(mdc.contains("---"));
    assert!(mdc.contains("description:"));
}

#[test]
fn test_multi_requirement_task() {
    let context = compile_context(&auth_spec(), "TASK-AUTH-2", CompileOptions::default());
    assert!(context.is_some());
    let ctx = context.unwrap();
    assert_eq!(ctx.requirements.len(), 2);
}

#[test]
fn context_carries_task_title_and_status() {
    let ctx = compile_context(&auth_spec(), "TASK-AUTH-1", CompileOptions::default()).unwrap();
    assert_eq!(ctx.task_title, "Implement Login");
    assert_eq!(ctx.task_status, Some("pending".to_string()));
    assert_eq!(ctx.requirements[0].id, "REQ-AUTH-1");
    assert_eq!(ctx.requirements[0].title, "User Authentication");
    assert!(ctx.concepts.is_empty());
}

// ---------------------------------------------------------------------------
// Constraint text
// ---------------------------------------------------------------------------

#[test]
fn unique_constraint_text() {
    let c = Constraint::Unique { span: Span::new(1, 2, 0, 1, 0, 2) };
    assert_eq!(
        constraint_text(&c),
        "Unique { span: Span { start: 1, end: 2, start_line: 0, start_col: 1, end_line: 0, end_col: 2 } }"
    );
    assert_eq!(constraint_text(&c), format!("{:?}", c));
}

#[test]
fn at_least_constraint_text_with_and_without_unit() {
    let none = Constraint::AtLeast { count: 3, unit: None, span: Span::new(10, 20, 1, 0, 1, 10) };
    assert_eq!(
        constraint_text(&none),
        "AtLeast { count: 3, unit: None, span: Span { start: 10, end: 20, start_line: 1, start_col: 0, end_line: 1, end_col: 10 } }"
    );
    assert_eq!(constraint_text(&none), format!("{:?}", none));
    let some = Constraint::AtLeast {
        count: 12,
        unit: Some(Identifier::new("items", Span::new(0, 5, 0, 0, 0, 5))),
        span: Span::new(0, 9, 0, 0, 0, 9),
    };
    assert_eq!(constraint_text(&some), format!("{:?}", some));
    assert!(constraint_text(&some).contains("unit: Some(Identifier { value: \"items\""));
}

#[test]
fn default_constraint_text_escapes_its_value() {
    let c = Constraint::Default {
        value: Prose::new("say \"hi\"\tit's a\\b\n", Span::new(0, 1, 0, 0, 0, 1)),
        span: Span::new(0, 1, 0, 0, 0, 1),
    };
    let text = constraint_text(&c);
    assert_eq!(text, format!("{:?}", c));
    assert!(text.starts_with("Default { value: Prose { text: \"say \\\"hi\\\"\\tit's a\\\\b\\n\""));
}

#[test]
fn derived_and_invariant_constraint_texts() {
    let sp0 = Span::new(4, 8, 0, 4, 0, 8);
    let d = Constraint::Derived { expr: Prose::new("a + b", sp0), span: sp0 };
    let i = Constraint::Invariant { predicate: Prose::new("x > 0", sp0), span: sp0 };
    assert_eq!(constraint_text(&d), format!("{:?}", d));
    assert_eq!(constraint_text(&i), format!("{:?}", i));
    assert!(constraint_text(&i).starts_with("Invariant { predicate: Prose { text: \"x > 0\""));
}

// ---------------------------------------------------------------------------
// Holes that list related concepts
// ---------------------------------------------------------------------------

#[test]
fn involving_hole_names_nothing_and_lists_its_concepts() {
    let content = Some("involving: `Stock`, `Order`".to_string());
    assert_eq!(parse_hole_content(&content), (None, None));
    assert_eq!(listed_concepts(&content), Some(vec!["Stock".to_string(), "Order".to_string()]));
    assert_eq!(listed_concepts(&Some("payment_flow : `Payment` -> `Receipt`".to_string())), None);
    assert_eq!(listed_concepts(&Some("`Stock`".to_string())), None);
    assert_eq!(listed_concepts(&None), None);
    assert_eq!(listed_concepts(&Some("involving:".to_string())), Some(vec![]));
}

#[test]
fn involving_hole_in_a_concept_field_records_the_listed_concepts() {
    let file = spec_file(vec![section(
        "Concepts",
        vec![
            concept("User", vec![field("id", None, 40)], 25),
            concept(
                "Inventory",
                vec![
                    field("owner", ty("User", 80), 70),
                    field("reservation", hole(Some("involving: `Stock`, `Order`"), 105), 95),
                ],
                55,
            ),
        ],
    )]);
    let holes = extract_holes(&file);
    assert_eq!(holes.len(), 1);
    let h = &holes.holes[0];
    assert!(!h.has_name());
    assert!(h.type_hint.is_none());
    assert_eq!(h.related_concepts, vec!["Stock".to_string(), "Order".to_string()]);
}

#[test]
fn named_hole_keeps_its_name() {
    let file = spec_file(vec![section(
        "Concepts",
        vec![concept("Payment", vec![field("flow", hole(Some("payment_flow : `Payment` -> `Receipt`"), 60), 50)], 25)],
    )]);
    let holes = extract_holes(&file);
    assert!(holes.holes[0].has_name());
    assert_eq!(holes.holes[0].name, Some("payment_flow".to_string()));
}

// ---------------------------------------------------------------------------
// Walking a file
// ---------------------------------------------------------------------------

#[test]
fn walk_visits_the_file_then_each_section_and_its_items_in_order() {
    let file = spec_file(vec![
        section("Requirements", vec![requirement("REQ-1", "One", "Desc.", 30)]),
        section(
            "Concepts",
            vec![
                concept("User", vec![], 60),
                foreign("typescript", "type A = string;", 80),
                SectionContent::Prose(prose("Some words.")),
                task("TASK-1", "Do", &["REQ-1"], &[PENDING], 100),
            ],
        ),
        section("Empty", vec![]),
    ]);
    assert_eq!(
        visit_order(&file),
        vec![
            VisitKind::SourceFile,
            VisitKind::Section,
            VisitKind::Requirement,
            VisitKind::Section,
            VisitKind::Concept,
            VisitKind::Task,
            VisitKind::Section,
        ]
    );
    assert_eq!(visit_order(&spec_file(vec![])), vec![VisitKind::SourceFile]);
}

// ---------------------------------------------------------------------------
// Match lists
// ---------------------------------------------------------------------------

fn hit(start: usize, g1: Option<&str>, g2: Option<&str>) -> RegexMatch {
    RegexMatch { start, group1: g1.map(|s| s.to_string()), group2: g2.map(|s| s.to_string()) }
}

#[test]
fn attributes_from_matches_keep_the_last_value_of_a_key() {
    let m = attributes_from_matches(&vec![
        hit(0, Some("concept"), Some("User")),
        hit(17, Some("field"), Some("id")),
        hit(30, Some("concept"), Some("Order")),
        hit(44, Some("broken"), None),
    ]);
    assert_eq!(m.get("concept").map(|s| s.as_str()), Some("Order"));
    assert_eq!(m.get("field").map(|s| s.as_str()), Some("id"));
    assert!(m.get("broken").is_none());
}

#[test]
fn match_symbols_are_named_by_the_first_group_and_deduplicated() {
    let content = "model User {}\nmodel Order {}\nmodel User {}\n";
    let mut symbols = ForeignSymbols::new();
    let caps = vec![hit(0, Some("User"), None), hit(14, Some("Order"), None), hit(29, Some("User"), None)];
    add_match_symbols(&caps, ForeignSymbolKind::Model, content, "typespec", sp(0), true, &mut symbols);
    assert_eq!(symbols.symbols.len(), 2);
    assert_eq!(symbols.symbols[0].name, "User");
    assert_eq!(symbols.symbols[1].name, "Order");
    assert_eq!(symbols.symbols[1].block_offset, 14);
    assert_eq!(symbols.symbols[1].declaration, "model Order {}");
    let mut all = ForeignSymbols::new();
    add_match_symbols(&caps, ForeignSymbolKind::Model, content, "typespec", sp(0), false, &mut all);
    assert_eq!(all.symbols.len(), 3);
}

// ---------------------------------------------------------------------------
// Disjoint lists
// ---------------------------------------------------------------------------

#[test]
fn errors_and_warnings_share_nothing() {
    let file = spec_file(vec![
        section("Requirements", vec![requirement("REQ-1", "Alone", "Desc.", 30)]),
        section("Tasks", vec![task("TASK-1", "Do", &["REQ-MISSING"], &[PENDING], 90)]),
    ]);
    let diags = diagnostics(&file);
    let errors = diags.errors();
    let warnings = diags.warnings();
    assert!(!errors.is_empty() && !warnings.is_empty());
    assert!(errors.iter().all(|e| !warnings.iter().any(|w| std::ptr::eq(*e, *w))));
    assert!(errors.len() + warnings.len() <= diags.diagnostics.len());
}

#[test]
fn resolved_and_unresolved_add_up() {
    let file = spec_file(vec![
        section("Requirements", vec![requirement("REQ-1", "One", "Desc.", 30)]),
        section("Tasks", vec![task("TASK-1", "Do", &["REQ-1", "REQ-2"], &[PENDING], 90)]),
    ]);
    let resolved = resolve_references(&file);
    assert_eq!(resolved.resolved().len() + resolved.unresolved().len(), resolved.references.len());
    assert_eq!(resolved.unresolved().len(), 1);
}

#[test]
fn concept_and_behavior_holes_are_apart() {
    let b = SectionContent::Behavior(Behavior {
        name: ident("checkout", 120),
        implements: vec![],
        given: vec![Prose::new("an order [?]", sp(130))],
        returns: None,
        requires: vec![],
        ensures: vec![],
        ears_clauses: vec![],
        prose: vec![],
        span: sp(120),
    });
    let file = spec_file(vec![section(
        "Things",
        vec![concept("Order", vec![field("status", hole(None, 75), 60)], 25), b],
    )]);
    let holes = extract_holes(&file);
    assert_eq!(holes.in_concept("Order").len(), 1);
    assert_eq!(holes.in_behavior("checkout").len(), 1);
    assert!(holes.in_concept("checkout").is_empty());
    assert!(holes.in_behavior("Order").is_empty());
}
