//! Anchors: `@topos(...)` annotations read from Rust source, the elements
//! they stand on, and the specification generated from them.

use topos::anchors::{extract_anchors, extract_anchors_from_files, AnchorKind, CodeElementKind};

#[test]
fn test_extract_concept_anchor() {
    let source = r#"
// @topos(req="REQ-1", concept="Order")
pub struct Order {
    pub id: u64,
}
"#;
    let collection = extract_anchors(source, "test.rs");

    assert_eq!(collection.len(), 1);
    let anchor = &collection.anchors[0];
    assert_eq!(anchor.kind, AnchorKind::Concept);
    assert_eq!(anchor.concept_name(), Some("Order"));
    assert_eq!(anchor.req_id(), Some("REQ-1"));

    let elem = anchor.code_element.as_ref().unwrap();
    assert_eq!(elem.kind, CodeElementKind::Struct);
    assert_eq!(elem.name, "Order");
}

#[test]
fn test_extract_behavior_anchor() {
    let source = r#"
// @topos(behavior="create_order", implements="REQ-1")
pub fn create_order() -> Order {
    Order { id: 1 }
}
"#;
    let collection = extract_anchors(source, "test.rs");

    assert_eq!(collection.len(), 1);
    let anchor = &collection.anchors[0];
    assert_eq!(anchor.kind, AnchorKind::Behavior);
    assert_eq!(anchor.behavior_name(), Some("create_order"));
    assert_eq!(anchor.req_id(), Some("REQ-1"));

    let elem = anchor.code_element.as_ref().unwrap();
    assert_eq!(elem.kind, CodeElementKind::Function);
    assert_eq!(elem.name, "create_order");
    assert_eq!(elem.rust_type, Some("Order".to_string()));
}

#[test]
fn test_extract_field_anchors() {
    let source = r#"
// @topos(concept="User")
pub struct User {
    // @topos(field="id")
    pub id: u64,
    // @topos(field="name")
    pub name: String,
}
"#;
    let collection = extract_anchors(source, "test.rs");

    assert_eq!(collection.len(), 3);

    let concept = collection.concept("User").unwrap();
    assert_eq!(concept.kind, AnchorKind::Concept);

    let fields: Vec<_> = collection.anchors.iter().filter(|a| a.kind == AnchorKind::Field).collect();
    assert_eq!(fields.len(), 2);
}

#[test]
fn test_generate_spec() {
    let source = r#"
// @topos(req="REQ-1", concept="Order")
pub struct Order {
    // @topos(field="id")
    pub id: u64,
    // @topos(field="status")
    pub status: String,
}

// @topos(behavior="create_order", implements="REQ-1")
pub fn create_order() -> Order {
    Order { id: 1, status: "new".into() }
}
"#;
    let collection = extract_anchors(source, "test.rs");
    let spec = collection.generate_spec("OrderSystem");

    assert!(spec.contains("spec OrderSystem"));
    assert!(spec.contains("Concept Order:"));
    assert!(spec.contains("field id"));
    assert!(spec.contains("field status"));
    assert!(spec.contains("Behavior create_order [REQ-1]:"));
}

#[test]
fn test_parse_attributes() {
    let source = r#"
// @topos(concept="User", req="REQ-AUTH-1", description="User model")
pub struct User {}
"#;
    let collection = extract_anchors(source, "test.rs");

    assert_eq!(collection.len(), 1);
    let anchor = &collection.anchors[0];
    assert_eq!(anchor.get("concept"), Some("User"));
    assert_eq!(anchor.get("req"), Some("REQ-AUTH-1"));
    assert_eq!(anchor.get("description"), Some("User model"));
}

#[test]
fn test_empty_source() {
    let collection = extract_anchors("", "test.rs");
    assert!(collection.is_empty());
}

#[test]
fn test_no_annotations() {
    let source = r#"
pub struct Order {
    pub id: u64,
}

pub fn create_order() -> Order {
    Order { id: 1 }
}
"#;
    let collection = extract_anchors(source, "test.rs");
    assert!(collection.is_empty());
}

#[test]
fn test_block_comment_annotation() {
    let source = r#"
/* @topos(concept="Order") */
pub struct Order {
    pub id: u64,
}
"#;
    let collection = extract_anchors(source, "test.rs");
    assert_eq!(collection.len(), 1);
    assert_eq!(collection.anchors[0].concept_name(), Some("Order"));
}

#[test]
fn anchor_records_file_line_and_element_lines() {
    let source = "fn helper() {}\n\n// @topos(concept=\"Order\")\npub struct Order {\n    pub id: u64,\n}\n";
    let collection = extract_anchors(source, "src/order.rs");
    assert_eq!(collection.len(), 1);
    let anchor = &collection.anchors[0];
    assert_eq!(anchor.file_path, "src/order.rs");
    assert_eq!(anchor.line, 2);
    assert_eq!(anchor.kind_str(), "concept");
    let elem = anchor.code_element.as_ref().unwrap();
    assert_eq!(elem.start_line, 3);
    assert_eq!(elem.end_line, 5);
    assert_eq!(elem.visibility, Some("pub".to_string()));
    assert_eq!(collection.from_file("src/order.rs").len(), 1);
    assert!(collection.from_file("other.rs").is_empty());
}

#[test]
fn anchors_from_several_files_keep_order() {
    let files = vec![
        ("a.rs".to_string(), "// @topos(concept=\"A\")\npub struct A {}\n".to_string()),
        ("b.rs".to_string(), "// @topos(behavior=\"run\", implements=\"REQ-9\")\npub fn run() {}\n".to_string()),
    ];
    let collection = extract_anchors_from_files(&files);
    assert_eq!(collection.len(), 2);
    assert_eq!(collection.anchors[0].file_path, "a.rs");
    assert_eq!(collection.anchors[1].behavior_name(), Some("run"));
    assert_eq!(collection.anchors[1].implements(), vec!["REQ-9"]);
    assert_eq!(collection.concepts().len(), 1);
    assert_eq!(collection.behaviors().len(), 1);
}

#[test]
fn later_anchor_of_same_concept_wins_lookup() {
    let source = "// @topos(concept=\"A\", description=\"first\")\npub struct A {}\n// @topos(concept=\"A\", description=\"second\")\npub struct B {}\n";
    let collection = extract_anchors(source, "x.rs");
    assert_eq!(collection.len(), 2);
    assert_eq!(collection.concept("A").unwrap().get("description"), Some("second"));
}
