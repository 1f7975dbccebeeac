//! Spans, the parser over concrete syntax trees, and the formatter.
//!
//! The trees below are those that the Topos grammar gives for the sources
//! quoted beside them; each node's span is the place of its text there.

use topos::ast::SectionContent;
use topos::cst::SyntaxNode;
use topos::format::FormatConfig;
use topos::parser::Parser;
use topos::span::Span;

/// The span of the first occurrence of `needle` in `src` at or after `from`.
fn at(src: &str, needle: &str, from: usize) -> Span {
    let start = src[from..].find(needle).expect("needle in source") + from;
    let end = start + needle.len();
    let (sl, sc) = line_col(src, start);
    let (el, ec) = line_col(src, end);
    Span::new(start as u32, end as u32, sl, sc, el, ec)
}

fn line_col(src: &str, offset: usize) -> (u32, u32) {
    let before = &src[..offset];
    let line = before.matches('\n').count() as u32;
    let col = match before.rfind('\n') {
        Some(i) => (offset - i - 1) as u32,
        None => offset as u32,
    };
    (line, col)
}

fn leaf(src: &str, kind: &str, text: &str, from: usize) -> SyntaxNode {
    SyntaxNode::leaf(kind, text, at(src, text, from))
}

fn branch(src: &str, kind: &str, text: &str, from: usize, children: Vec<SyntaxNode>) -> SyntaxNode {
    SyntaxNode::branch(kind, text, at(src, text, from), children)
}

fn root(src: &str, children: Vec<SyntaxNode>) -> SyntaxNode {
    SyntaxNode::branch("source_file", src, at(src, src, 0), children)
}

fn spec_def(src: &str, line: &str, name: &str) -> SyntaxNode {
    branch(src, "spec_def", line, 0, vec![leaf(src, "spec", "spec", 0), leaf(src, "identifier", name, 0)])
}

fn section(src: &str, header_line: &str, title: &str, body: &str, mut contents: Vec<SyntaxNode>) -> SyntaxNode {
    let from = src.find(header_line).unwrap();
    let header = branch(src, "header", header_line, from, vec![leaf(src, "prose", title, from)]);
    let mut children = vec![header];
    children.append(&mut contents);
    branch(src, "section", body, from, children)
}

#[test]
fn span_display() {
    let span = Span::new(0, 10, 0, 0, 0, 10);
    assert_eq!(span.to_string(), "1:1-1:11");
}

#[test]
fn span_merge() {
    let a = Span::new(0, 5, 0, 0, 0, 5);
    let b = Span::new(10, 15, 1, 0, 1, 5);
    let merged = a.merge(&b);
    assert_eq!(merged.start, 0);
    assert_eq!(merged.end, 15);
}

#[test]
fn parse_empty() {
    let src = "";
    let result = Parser::parse(&root(src, vec![]));
    assert!(result.is_ok());
    let file = result.unwrap();
    assert!(file.spec.is_none());
    assert!(file.sections.is_empty());
}

#[test]
fn parse_spec_decl() {
    let src = "spec TaskManagement\n";
    let tree = root(src, vec![spec_def(src, "spec TaskManagement", "TaskManagement")]);
    let result = Parser::parse(&tree);
    assert!(result.is_ok());
    let file = result.unwrap();
    assert!(file.spec.is_some());
    assert_eq!(file.spec.unwrap().name.value, "TaskManagement");
}

#[test]
fn parse_section() {
    let src = "# Requirements\n\nSome prose here.\n";
    let body = section(src, "# Requirements", "Requirements", src, vec![leaf(src, "prose", "Some prose here.", 0)]);
    let result = Parser::parse(&root(src, vec![body]));
    assert!(result.is_ok());
    let file = result.unwrap();
    assert_eq!(file.sections.len(), 1);
    assert_eq!(file.sections[0].header.text, "Requirements");
}

fn requirement_tree(src: &str) -> SyntaxNode {
    let req_text = "## REQ-1: Task Creation\nDescription here\nwhen: user submits form\nthe system shall: create task\n";
    let ears_text = "when: user submits form\nthe system shall: create task";
    let ears = branch(
        src,
        "ears_clause",
        ears_text,
        0,
        vec![leaf(src, "prose", "user submits form", 0), leaf(src, "prose", "create task", 0)],
    );
    let req = branch(
        src,
        "requirement",
        req_text,
        0,
        vec![
            leaf(src, "identifier", "REQ-1", 0),
            leaf(src, "prose", "Task Creation", 0),
            leaf(src, "prose", "Description here", 0),
            ears,
        ],
    );
    root(src, vec![section(src, "# Requirements", "Requirements", src, vec![req])])
}

#[test]
fn parse_requirement() {
    let source = r#"# Requirements

## REQ-1: Task Creation
Description here
when: user submits form
the system shall: create task
"#;
    let result = Parser::parse(&requirement_tree(source));
    assert!(result.is_ok());
    let file = result.unwrap();
    assert_eq!(file.sections.len(), 1);

    let section = &file.sections[0];
    let req = section.contents.iter().find_map(|c| {
        if let SectionContent::Requirement(r) = c {
            Some(r)
        } else {
            None
        }
    });
    assert!(req.is_some());
    let req = req.unwrap();
    assert_eq!(req.id.value, "REQ-1");
    assert_eq!(req.ears_clauses.len(), 1);
}

fn field_node(src: &str, line: &str, name: &str, ty: &str, constraint: Option<&str>) -> SyntaxNode {
    let from = src.find(line).unwrap();
    let ty_text = format!("`{}`", ty);
    let reference = branch(src, "reference", &ty_text, from, vec![leaf(src, "identifier", ty, from)]);
    let mut children = vec![
        leaf(src, "field", "field", from),
        leaf(src, "identifier", name, from),
        branch(src, "type_expr", &ty_text, from, vec![reference]),
    ];
    if let Some(c) = constraint {
        children.push(leaf(src, "constraint", c, from));
    }
    branch(src, "field", line, from, children)
}

fn concept_node(src: &str, block: &str, name: &str, fields: Vec<SyntaxNode>) -> SyntaxNode {
    let from = src.find(block).unwrap();
    let mut children = vec![leaf(src, "identifier", name, from)];
    let mut fields = fields;
    children.append(&mut fields);
    branch(src, "concept", block, from, children)
}

#[test]
fn parse_concept() {
    let source = r#"# Concepts

Concept Task:
  field id (`Identifier`): unique
  field title (`String`)
"#;
    let fields = vec![
        field_node(source, "field id (`Identifier`): unique", "id", "Identifier", Some("unique")),
        field_node(source, "field title (`String`)", "title", "String", None),
    ];
    let block = "Concept Task:\n  field id (`Identifier`): unique\n  field title (`String`)\n";
    let concept = concept_node(source, block, "Task", fields);
    let tree = root(source, vec![section(source, "# Concepts", "Concepts", source, vec![concept])]);
    let result = Parser::parse(&tree);
    assert!(result.is_ok());
    let file = result.unwrap();

    let concept = file.sections[0].contents.iter().find_map(|c| {
        if let SectionContent::Concept(c) = c {
            Some(c)
        } else {
            None
        }
    });
    assert!(concept.is_some());
    let concept = concept.unwrap();
    assert_eq!(concept.name.value, "Task");
    assert_eq!(concept.fields.len(), 2);
}

#[test]
fn parse_task() {
    let source = r#"# Tasks

## TASK-1: Implement Feature [REQ-1]
file: src/main.rs
status: pending
"#;
    let refs = branch(source, "task_ref_list", "[REQ-1]", 0, vec![leaf(source, "identifier", "REQ-1", 0)]);
    let file_field = branch(source, "task_field", "file: src/main.rs", 0, vec![leaf(source, "prose", "src/main.rs", 0)]);
    let status_field = branch(source, "task_field", "status: pending", 0, vec![leaf(source, "prose", "pending", 0)]);
    let task_text = "## TASK-1: Implement Feature [REQ-1]\nfile: src/main.rs\nstatus: pending\n";
    let task = branch(
        source,
        "task",
        task_text,
        0,
        vec![
            leaf(source, "identifier", "TASK-1", 0),
            leaf(source, "prose", "Implement Feature", 0),
            refs,
            file_field,
            status_field,
        ],
    );
    let tree = root(source, vec![section(source, "# Tasks", "Tasks", source, vec![task])]);
    let result = Parser::parse(&tree);
    assert!(result.is_ok());
    let file = result.unwrap();

    let task = file.sections[0].contents.iter().find_map(|c| {
        if let SectionContent::Task(t) = c {
            Some(t)
        } else {
            None
        }
    });
    assert!(task.is_some());
    let task = task.unwrap();
    assert_eq!(task.id.value, "TASK-1");
    assert_eq!(task.req_refs.len(), 1);
    assert_eq!(task.req_refs[0].value, "REQ-1");
    assert_eq!(task.fields.len(), 2);
}

#[test]
fn parse_reports_spec_without_name() {
    let src = "spec\n";
    let tree = root(src, vec![branch(src, "spec_def", "spec", 0, vec![leaf(src, "spec", "spec", 0)])]);
    let result = Parser::parse(&tree);
    assert!(result.is_err());
    assert_eq!(result.err().unwrap().message(), "missing required child: identifier");
}

#[test]
fn test_format_empty_spec() {
    let source = "spec Test\n";
    let file = Parser::parse(&root(source, vec![spec_def(source, "spec Test", "Test")])).unwrap();
    let formatted = topos::format::format(&file, &FormatConfig::default());
    assert!(formatted.starts_with("spec Test"));
}

#[test]
fn test_format_preserves_spec_name() {
    let source = "spec   MyApp  \n";
    let file = Parser::parse(&root(source, vec![spec_def(source, "spec   MyApp", "MyApp")])).unwrap();
    let formatted = topos::format::format(&file, &FormatConfig::default());
    assert!(formatted.contains("spec MyApp"));
}

#[test]
fn test_format_requirement() {
    let source = r#"spec Test

# Requirements

## REQ-1: User Login
Users must be able to log in.
"#;
    let req_text = "## REQ-1: User Login\nUsers must be able to log in.\n";
    let req = branch(
        source,
        "requirement",
        req_text,
        0,
        vec![
            leaf(source, "identifier", "REQ-1", 0),
            leaf(source, "prose", "User Login", 0),
            leaf(source, "prose", "Users must be able to log in.", 0),
        ],
    );
    let sec_text = &source[source.find("# Requirements").unwrap()..];
    let tree = root(
        source,
        vec![spec_def(source, "spec Test", "Test"), section(source, "# Requirements", "Requirements", sec_text, vec![req])],
    );
    let file = Parser::parse(&tree).unwrap();
    let formatted = topos::format::format(&file, &FormatConfig::default());
    assert!(formatted.contains("## REQ-1:"));
    assert!(formatted.contains("User Login"));
}

#[test]
fn test_format_concept() {
    let source = r#"spec Test

# Concepts

Concept User:
  field name (`String`)
  field email (`String`)
"#;
    let fields = vec![
        field_node(source, "field name (`String`)", "name", "String", None),
        field_node(source, "field email (`String`)", "email", "String", None),
    ];
    let block = "Concept User:\n  field name (`String`)\n  field email (`String`)\n";
    let concept = concept_node(source, block, "User", fields);
    let sec_text = &source[source.find("# Concepts").unwrap()..];
    let tree = root(
        source,
        vec![spec_def(source, "spec Test", "Test"), section(source, "# Concepts", "Concepts", sec_text, vec![concept])],
    );
    let file = Parser::parse(&tree).unwrap();
    let formatted = topos::format::format(&file, &FormatConfig::default());
    assert!(formatted.contains("Concept User:"));
    assert!(formatted.contains("field name"));
}

#[test]
fn format_writes_whole_concept_exactly() {
    let source = "spec Test\n\n# Concepts\n\nConcept User:\n  field name (`String`): unique\n";
    let fields = vec![field_node(source, "field name (`String`): unique", "name", "String", Some("unique"))];
    let concept = concept_node(source, "Concept User:\n  field name (`String`): unique\n", "User", fields);
    let sec_text = &source[source.find("# Concepts").unwrap()..];
    let tree = root(
        source,
        vec![spec_def(source, "spec Test", "Test"), section(source, "# Concepts", "Concepts", sec_text, vec![concept])],
    );
    let file = Parser::parse(&tree).unwrap();
    let formatted = topos::format::format(&file, &FormatConfig::default());
    assert_eq!(formatted, "spec Test\n\n# Concepts\n\nConcept User:\n  field name (`String`)\n    unique\n\n");
}
