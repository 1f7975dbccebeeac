//! Formatter for Topos specifications: prints a file in a consistent style
//! while keeping its meaning.
use vstd::prelude::*;

use crate::ast::{
    Acceptance, AcceptanceClause, AcceptanceKind, Aesthetic, AestheticField, Behavior, Concept,
    Constraint, EarsClause, Field, ForeignBlock, Identifier, Import, ImportItem, ImportKind,
    Invariant, Prose, Quantifier, ReqId, Requirement, Section, SectionContent, SourceFile, Subsection,
    Task, TaskField, TaskFieldKind, TypeExpr,
};
use crate::text::{
    chars_of, decimal, is_blank, is_blank_str, join, owned, push_char, push_decimal, push_str, trim,
    trimmed, views,
};

verus! {

/// Configuration for the formatter.
#[derive(Debug, Clone)]
pub struct FormatConfig {
    /// Indentation string (default: two spaces).
    pub indent: String,
    /// Maximum line width before wrapping (default: 100).
    pub max_width: usize,
    /// Add blank lines between major sections (default: true).
    pub blank_between_sections: bool,
}

impl Default for FormatConfig {
    fn default() -> (c: Self)
        ensures
            c.indent@ == "  "@,
            c.max_width == 100,
            c.blank_between_sections,
    {
        FormatConfig { indent: owned("  "), max_width: 100, blank_between_sections: true }
    }
}

// ============================================================================
// The text of each element
// ============================================================================

/// `s` as a line.
pub open spec fn line(s: Seq<char>) -> Seq<char> {
    s.push('\n')
}

/// `out` ending in an empty line: a newline is added unless `out` is empty or
/// already ends with two newlines.
pub open spec fn blank(out: Seq<char>) -> Seq<char> {
    if out.len() == 0 || (out.len() >= 2 && out[out.len() - 1] == '\n' && out[out.len() - 2]
        == '\n') {
        out
    } else {
        out.push('\n')
    }
}

/// A prose paragraph, trimmed, as a line; nothing when it is blank.
pub open spec fn prose_line(p: Prose) -> Seq<char> {
    if is_blank(p.text@) {
        Seq::empty()
    } else {
        line(trim(p.text@))
    }
}

/// The lines of the non-blank paragraphs of `ps`.
pub open spec fn prose_lines(ps: Seq<Prose>) -> Seq<char>
    decreases ps.len(),
{
    if ps.len() == 0 {
        Seq::empty()
    } else {
        prose_lines(ps.drop_last()) + prose_line(ps.last())
    }
}

/// One line per paragraph: `pre`, the trimmed text.
pub open spec fn labelled_lines(pre: Seq<char>, ps: Seq<Prose>) -> Seq<char>
    decreases ps.len(),
{
    if ps.len() == 0 {
        Seq::empty()
    } else {
        labelled_lines(pre, ps.drop_last()) + line(pre + trim(ps.last().text@))
    }
}

/// The lines of EARS clauses.
pub open spec fn ears_lines(es: Seq<EarsClause>, indent: Seq<char>) -> Seq<char>
    decreases es.len(),
{
    if es.len() == 0 {
        Seq::empty()
    } else {
        ears_lines(es.drop_last(), indent) + line(indent + "when: "@ + trim(es.last().when.text@))
            + line(indent + "the system shall: "@ + trim(es.last().shall.text@))
    }
}

/// The word for an acceptance clause kind.
pub open spec fn acceptance_word(k: AcceptanceKind) -> Seq<char> {
    match k {
        AcceptanceKind::Given => "given"@,
        AcceptanceKind::When => "when"@,
        AcceptanceKind::Then => "then"@,
    }
}

/// The lines of acceptance clauses, indented twice.
pub open spec fn acceptance_lines(cs: Seq<AcceptanceClause>, indent: Seq<char>) -> Seq<char>
    decreases cs.len(),
{
    if cs.len() == 0 {
        Seq::empty()
    } else {
        acceptance_lines(cs.drop_last(), indent) + line(
            indent + indent + acceptance_word(cs.last().kind) + ": "@ + trim(cs.last().content.text@),
        )
    }
}

/// The text of a requirement.
pub open spec fn requirement_text(r: Requirement, indent: Seq<char>) -> Seq<char> {
    line("## "@ + r.id.value@ + ": "@ + trim(r.title.text@)) + ears_lines(r.ears_clauses@, indent)
        + (match r.acceptance {
        Some(a) => line(indent + "acceptance:"@) + acceptance_lines(a.clauses@, indent),
        None => Seq::empty(),
    }) + prose_lines(r.prose@)
}

/// The values of identifiers.
pub open spec fn identifier_values(ids: Seq<Identifier>) -> Seq<Seq<char>> {
    ids.map_values(|i: Identifier| i.value@)
}

/// The text of a type expression.
pub open spec fn type_text(t: TypeExpr) -> Seq<char> {
    match t {
        TypeExpr::Reference(r) => "`"@ + r.name@ + "`"@,
        TypeExpr::Hole(h) => match h.content {
            Some(c) => "[? "@ + c@ + "]"@,
            None => "[?]"@,
        },
        TypeExpr::List { element, .. } => "List of `"@ + element.name@ + "`"@,
        TypeExpr::Optional { inner, .. } => "Optional `"@ + inner.name@ + "`"@,
        TypeExpr::Applied { base, arg, .. } => "`"@ + base.name@ + "` `"@ + arg.name@ + "`"@,
        TypeExpr::OneOf { variants, .. } => "one of: "@ + join(identifier_values(variants@), ", "@),
    }
}

/// The line of a constraint, indented twice.
pub open spec fn constraint_line(c: Constraint, indent: Seq<char>) -> Seq<char> {
    line(
        indent + indent + match c {
            Constraint::Unique { .. } => "unique"@,
            Constraint::Default { value, .. } => "default: "@ + trim(value.text@),
            Constraint::Derived { expr, .. } => "derived: "@ + trim(expr.text@),
            Constraint::Invariant { predicate, .. } => "invariant: "@ + trim(predicate.text@),
            Constraint::AtLeast { count, unit, .. } => "at least "@ + decimal(count as nat) + match unit {
                Some(u) => " "@ + u.value@,
                None => Seq::empty(),
            },
        },
    )
}

/// The lines of constraints.
pub open spec fn constraint_lines(cs: Seq<Constraint>, indent: Seq<char>) -> Seq<char>
    decreases cs.len(),
{
    if cs.len() == 0 {
        Seq::empty()
    } else {
        constraint_lines(cs.drop_last(), indent) + constraint_line(cs.last(), indent)
    }
}

/// The text of a field: its line, then its constraints.
pub open spec fn field_text(f: Field, indent: Seq<char>) -> Seq<char> {
    line(
        indent + "field "@ + f.name.value@ + match f.ty {
            Some(t) => " ("@ + type_text(t) + ")"@,
            None => Seq::empty(),
        },
    ) + constraint_lines(f.constraints@, indent)
}

/// The text of fields.
pub open spec fn field_texts(fs: Seq<Field>, indent: Seq<char>) -> Seq<char>
    decreases fs.len(),
{
    if fs.len() == 0 {
        Seq::empty()
    } else {
        field_texts(fs.drop_last(), indent) + field_text(fs.last(), indent)
    }
}

/// The text of a concept.
pub open spec fn concept_text(c: Concept, indent: Seq<char>) -> Seq<char> {
    line("Concept "@ + c.name.value@ + ":"@) + field_texts(c.fields@, indent) + prose_lines(c.prose@)
}

/// The values of requirement IDs.
pub open spec fn req_id_values(ids: Seq<ReqId>) -> Seq<Seq<char>> {
    ids.map_values(|r: ReqId| r.value@)
}

/// The text of a behavior.
pub open spec fn behavior_text(b: Behavior, indent: Seq<char>) -> Seq<char> {
    line(
        if b.implements@.len() == 0 {
            "Behavior "@ + b.name.value@ + ":"@
        } else {
            "Behavior "@ + b.name.value@ + " ["@ + join(req_id_values(b.implements@), ", "@) + "]:"@
        },
    ) + labelled_lines(indent + "given: "@, b.given@) + (match b.returns {
        Some(r) => line(indent + "returns: "@ + trim(r.text@)),
        None => Seq::empty(),
    }) + labelled_lines(indent + "requires: "@, b.requires@) + labelled_lines(
        indent + "ensures: "@,
        b.ensures@,
    ) + ears_lines(b.ears_clauses@, indent) + prose_lines(b.prose@)
}

/// The lines of quantifiers.
pub open spec fn quantifier_lines(qs: Seq<Quantifier>, indent: Seq<char>) -> Seq<char>
    decreases qs.len(),
{
    if qs.len() == 0 {
        Seq::empty()
    } else {
        quantifier_lines(qs.drop_last(), indent) + line(
            indent + "for each "@ + qs.last().var.value@ + " in `"@ + qs.last().collection.name@
                + "`:"@,
        )
    }
}

/// The lines of the non-blank paragraphs of `ps`, indented.
pub open spec fn indented_prose_lines(ps: Seq<Prose>, indent: Seq<char>) -> Seq<char>
    decreases ps.len(),
{
    if ps.len() == 0 {
        Seq::empty()
    } else {
        indented_prose_lines(ps.drop_last(), indent) + if is_blank(ps.last().text@) {
            Seq::empty()
        } else {
            line(indent + trim(ps.last().text@))
        }
    }
}

/// The text of an invariant.
pub open spec fn invariant_text(i: Invariant, indent: Seq<char>) -> Seq<char> {
    line("Invariant "@ + i.name.value@ + ":"@) + quantifier_lines(i.quantifiers@, indent)
        + indented_prose_lines(i.prose@, indent)
}

/// The word for a task field kind.
pub open spec fn task_field_word(k: TaskFieldKind) -> Seq<char> {
    match k {
        TaskFieldKind::File => "file"@,
        TaskFieldKind::Tests => "tests"@,
        TaskFieldKind::Depends => "depends"@,
        TaskFieldKind::Status => "status"@,
        TaskFieldKind::Evidence => "evidence"@,
        TaskFieldKind::Context => "context"@,
    }
}

/// The lines of task fields.
pub open spec fn task_field_lines(fs: Seq<TaskField>) -> Seq<char>
    decreases fs.len(),
{
    if fs.len() == 0 {
        Seq::empty()
    } else {
        task_field_lines(fs.drop_last()) + line(
            task_field_word(fs.last().kind) + ": "@ + trim(fs.last().value.text@),
        )
    }
}

/// The text of a task.
pub open spec fn task_text(t: Task) -> Seq<char> {
    line(
        if t.req_refs@.len() == 0 {
            "## "@ + t.id.value@ + ": "@ + trim(t.title.text@)
        } else {
            "## "@ + t.id.value@ + ": "@ + trim(t.title.text@) + " ["@ + join(
                req_id_values(t.req_refs@),
                ", "@,
            ) + "]"@
        },
    ) + task_field_lines(t.fields@) + prose_lines(t.prose@)
}

/// The lines of aesthetic fields.
pub open spec fn aesthetic_field_lines(fs: Seq<AestheticField>, indent: Seq<char>) -> Seq<char>
    decreases fs.len(),
{
    if fs.len() == 0 {
        Seq::empty()
    } else {
        aesthetic_field_lines(fs.drop_last(), indent) + line(
            indent + fs.last().name.value@ + ": "@ + (if fs.last().is_soft {
                "[~] "@
            } else {
                Seq::empty()
            }) + trim(fs.last().value.text@),
        )
    }
}

/// The text of an aesthetic block.
pub open spec fn aesthetic_text(a: Aesthetic, indent: Seq<char>) -> Seq<char> {
    line("Aesthetic "@ + a.name.value@ + ":"@) + aesthetic_field_lines(a.fields@, indent)
        + prose_lines(a.prose@)
}

/// The lines of paragraphs, verbatim.
pub open spec fn verbatim_lines(ps: Seq<Prose>) -> Seq<char>
    decreases ps.len(),
{
    if ps.len() == 0 {
        Seq::empty()
    } else {
        verbatim_lines(ps.drop_last()) + line(ps.last().text@)
    }
}

/// The text of a foreign block: its content verbatim between fences.
pub open spec fn foreign_text(b: ForeignBlock) -> Seq<char> {
    line("```"@ + b.language@) + verbatim_lines(b.content@) + line("```"@)
}

/// The text of a subsection.
pub open spec fn subsection_text(s: Subsection) -> Seq<char> {
    line("## "@ + trim(s.header.text@)) + prose_lines(s.body@)
}

/// The text of an element other than prose.
pub open spec fn element_text(c: SectionContent, indent: Seq<char>) -> Seq<char> {
    match c {
        SectionContent::Requirement(r) => requirement_text(r, indent),
        SectionContent::Concept(x) => concept_text(x, indent),
        SectionContent::Behavior(b) => behavior_text(b, indent),
        SectionContent::Invariant(i) => invariant_text(i, indent),
        SectionContent::Task(t) => task_text(t),
        SectionContent::Aesthetic(a) => aesthetic_text(a, indent),
        SectionContent::ForeignBlock(b) => foreign_text(b),
        SectionContent::Subsection(s) => subsection_text(s),
        SectionContent::Prose(p) => prose_line(p),
    }
}

/// `out` after one section element: prose adds its line; any other element
/// adds its text and then an empty line.
pub open spec fn content_out(out: Seq<char>, c: SectionContent, indent: Seq<char>) -> Seq<char> {
    match c {
        SectionContent::Prose(p) => out + prose_line(p),
        _ => blank(out + element_text(c, indent)),
    }
}

/// `out` after a sequence of section elements.
pub open spec fn contents_out(out: Seq<char>, cs: Seq<SectionContent>, indent: Seq<char>) -> Seq<char>
    decreases cs.len(),
{
    if cs.len() == 0 {
        out
    } else {
        content_out(contents_out(out, cs.drop_last(), indent), cs.last(), indent)
    }
}

/// `out` after a section: its header line, an empty line, then its elements.
pub open spec fn section_out(out: Seq<char>, s: Section, indent: Seq<char>) -> Seq<char> {
    contents_out(blank(out + line("# "@ + trim(s.header.text@))), s.contents@, indent)
}

/// `out` after a sequence of sections, with an empty line between two
/// sections when `between` holds.
pub open spec fn sections_out(out: Seq<char>, ss: Seq<Section>, indent: Seq<char>, between: bool) -> Seq<char>
    decreases ss.len(),
{
    if ss.len() == 0 {
        out
    } else {
        let prev = sections_out(out, ss.drop_last(), indent, between);
        section_out(
            if ss.len() > 1 && between {
                blank(prev)
            } else {
                prev
            },
            ss.last(),
            indent,
        )
    }
}

/// The text of an import item.
pub open spec fn import_item_text(i: ImportItem) -> Seq<char> {
    "`"@ + i.reference.name@ + "`"@ + match i.alias {
        Some(a) => " as "@ + a.value@,
        None => Seq::empty(),
    }
}

/// The texts of import items.
pub open spec fn import_item_texts(is: Seq<ImportItem>) -> Seq<Seq<char>> {
    is.map_values(|i: ImportItem| import_item_text(i))
}

/// The line of an import.
pub open spec fn import_line(i: Import) -> Seq<char> {
    match i.kind {
        ImportKind::Items { from, items } => line(
            match from {
                Some(p) => "import from \""@ + p.value@ + "\": "@,
                None => "import: "@,
            } + join(import_item_texts(items@), ", "@),
        ),
        ImportKind::Module { path, alias } => line(
            "import \""@ + path.value@ + "\" as "@ + alias.value@,
        ),
    }
}

/// The lines of imports.
pub open spec fn import_lines(is: Seq<Import>) -> Seq<char>
    decreases is.len(),
{
    if is.len() == 0 {
        Seq::empty()
    } else {
        import_lines(is.drop_last()) + import_line(is.last())
    }
}

/// The formatted text of a file: the spec line and an empty line, the imports
/// and an empty line, then the sections.
pub open spec fn formatted(f: SourceFile, config: FormatConfig) -> Seq<char> {
    let head = match f.spec {
        Some(d) => blank(line("spec "@ + d.name.value@)),
        None => Seq::empty(),
    };
    let with_imports = head + import_lines(f.imports@);
    let before_sections = if f.imports@.len() > 0 {
        blank(with_imports)
    } else {
        with_imports
    };
    sections_out(before_sections, f.sections@, config.indent@, config.blank_between_sections)
}

// ============================================================================
// Building the text
// ============================================================================

/// Appends a prose paragraph's line.
fn push_prose_line(t: &mut String, p: &Prose)
    ensures
        final(t)@ == old(t)@ + prose_line(*p),
{
    if !is_blank_str(p.text.as_str()) {
        let s = trimmed(p.text.as_str());
        push_str(t, s.as_str());
        push_char(t, '\n');
    }
    assert(t@ =~= old(t)@ + prose_line(*p));
}

/// Appends the lines of the non-blank paragraphs.
fn push_prose_lines(t: &mut String, ps: &Vec<Prose>)
    ensures
        final(t)@ == old(t)@ + prose_lines(ps@),
{
    let ghost start = t@;
    let mut i: usize = 0;
    while i < ps.len()
        invariant
            i <= ps@.len(),
            t@ == start + prose_lines(ps@.take(i as int)),
        decreases ps.len() - i,
    {
        proof {
            assert(ps@.take(i + 1).drop_last() =~= ps@.take(i as int));
        }
        push_prose_line(t, &ps[i]);
        i += 1;
    }
    assert(ps@.take(ps@.len() as int) =~= ps@);
}

/// Appends `pre`, the trimmed text, a newline.
fn push_labelled(t: &mut String, pre: &str, text: &str)
    ensures
        final(t)@ == old(t)@ + line(pre@ + trim(text@)),
{
    push_str(t, pre);
    let s = trimmed(text);
    push_str(t, s.as_str());
    push_char(t, '\n');
    assert(t@ =~= old(t)@ + line(pre@ + trim(text@)));
}

/// Appends one labelled line per paragraph.
fn push_labelled_lines(t: &mut String, pre: &str, ps: &Vec<Prose>)
    ensures
        final(t)@ == old(t)@ + labelled_lines(pre@, ps@),
{
    let ghost start = t@;
    let mut i: usize = 0;
    while i < ps.len()
        invariant
            i <= ps@.len(),
            t@ == start + labelled_lines(pre@, ps@.take(i as int)),
        decreases ps.len() - i,
    {
        proof {
            assert(ps@.take(i + 1).drop_last() =~= ps@.take(i as int));
        }
        push_labelled(t, pre, ps[i].text.as_str());
        i += 1;
    }
    assert(ps@.take(ps@.len() as int) =~= ps@);
}

/// `indent` followed by `label`.
fn indented(indent: &str, label: &str) -> (r: String)
    ensures
        r@ == indent@ + label@,
{
    let mut r = String::new();
    push_str(&mut r, indent);
    push_str(&mut r, label);
    r
}

/// Appends the lines of EARS clauses.
fn push_ears_lines(t: &mut String, es: &Vec<EarsClause>, indent: &str)
    ensures
        final(t)@ == old(t)@ + ears_lines(es@, indent@),
{
    let ghost start = t@;
    let when_pre = indented(indent, "when: ");
    let shall = indented(indent, "the system shall: ");
    let mut i: usize = 0;
    while i < es.len()
        invariant
            i <= es@.len(),
            when_pre@ == indent@ + "when: "@,
            shall@ == indent@ + "the system shall: "@,
            t@ == start + ears_lines(es@.take(i as int), indent@),
        decreases es.len() - i,
    {
        proof {
            assert(es@.take(i + 1).drop_last() =~= es@.take(i as int));
        }
        push_labelled(t, when_pre.as_str(), es[i].when.text.as_str());
        push_labelled(t, shall.as_str(), es[i].shall.text.as_str());
        i += 1;
    }
    assert(es@.take(es@.len() as int) =~= es@);
}

/// The word for an acceptance clause kind.
fn acceptance_kind_word(k: AcceptanceKind) -> (r: &'static str)
    ensures
        r@ == acceptance_word(k),
{
    match k {
        AcceptanceKind::Given => "given",
        AcceptanceKind::When => "when",
        AcceptanceKind::Then => "then",
    }
}

/// Appends the lines of acceptance clauses.
fn push_acceptance_lines(t: &mut String, cs: &Vec<AcceptanceClause>, indent: &str)
    ensures
        final(t)@ == old(t)@ + acceptance_lines(cs@, indent@),
{
    let ghost start = t@;
    let mut i: usize = 0;
    while i < cs.len()
        invariant
            i <= cs@.len(),
            t@ == start + acceptance_lines(cs@.take(i as int), indent@),
        decreases cs.len() - i,
    {
        proof {
            assert(cs@.take(i + 1).drop_last() =~= cs@.take(i as int));
        }
        let mut pre = String::new();
        push_str(&mut pre, indent);
        push_str(&mut pre, indent);
        push_str(&mut pre, acceptance_kind_word(cs[i].kind));
        push_str(&mut pre, ": ");
        push_labelled(t, pre.as_str(), cs[i].content.text.as_str());
        i += 1;
    }
    assert(cs@.take(cs@.len() as int) =~= cs@);
}

/// The text of a requirement.
fn requirement_string(r: &Requirement, indent: &str) -> (s: String)
    ensures
        s@ == requirement_text(*r, indent@),
{
    let mut s = String::new();
    let mut pre = String::new();
    push_str(&mut pre, "## ");
    push_str(&mut pre, r.id.value.as_str());
    push_str(&mut pre, ": ");
    push_labelled(&mut s, pre.as_str(), r.title.text.as_str());
    push_ears_lines(&mut s, &r.ears_clauses, indent);
    let ghost a = s@;
    match &r.acceptance {
        Some(acc) => {
            push_str(&mut s, indent);
            push_str(&mut s, "acceptance:");
            push_char(&mut s, '\n');
            push_acceptance_lines(&mut s, &acc.clauses, indent);
        },
        None => {},
    }
    let ghost b = s@;
    push_prose_lines(&mut s, &r.prose);
    assert(s@ =~= requirement_text(*r, indent@));
    s
}

/// Appends the values of identifiers joined by ", ".
fn push_identifiers(t: &mut String, ids: &Vec<Identifier>)
    ensures
        final(t)@ == old(t)@ + join(identifier_values(ids@), ", "@),
{
    let ghost start = t@;
    let ghost vs = identifier_values(ids@);
    let mut i: usize = 0;
    while i < ids.len()
        invariant
            i <= ids@.len(),
            vs == identifier_values(ids@),
            t@ == start + join(vs.take(i as int), ", "@),
        decreases ids.len() - i,
    {
        proof {
            crate::text::lemma_join_push(vs, ", "@, i as int);
        }
        if i > 0 {
            push_str(t, ", ");
        }
        push_str(t, ids[i].value.as_str());
        i += 1;
    }
    assert(vs.take(vs.len() as int) =~= vs);
}

/// Appends the values of requirement IDs joined by ", ".
fn push_req_ids(t: &mut String, ids: &Vec<ReqId>)
    ensures
        final(t)@ == old(t)@ + join(req_id_values(ids@), ", "@),
{
    let ghost start = t@;
    let ghost vs = req_id_values(ids@);
    let mut i: usize = 0;
    while i < ids.len()
        invariant
            i <= ids@.len(),
            vs == req_id_values(ids@),
            t@ == start + join(vs.take(i as int), ", "@),
        decreases ids.len() - i,
    {
        proof {
            crate::text::lemma_join_push(vs, ", "@, i as int);
        }
        if i > 0 {
            push_str(t, ", ");
        }
        push_str(t, ids[i].value.as_str());
        i += 1;
    }
    assert(vs.take(vs.len() as int) =~= vs);
}

/// The text of a type expression.
fn type_string(ty: &TypeExpr) -> (s: String)
    ensures
        s@ == type_text(*ty),
{
    let mut s = String::new();
    match ty {
        TypeExpr::Reference(r) => {
            push_str(&mut s, "`");
            push_str(&mut s, r.name.as_str());
            push_str(&mut s, "`");
        },
        TypeExpr::Hole(h) => match &h.content {
            Some(c) => {
                push_str(&mut s, "[? ");
                push_str(&mut s, c.as_str());
                push_str(&mut s, "]");
            },
            None => push_str(&mut s, "[?]"),
        },
        TypeExpr::List { element, .. } => {
            push_str(&mut s, "List of `");
            push_str(&mut s, element.name.as_str());
            push_str(&mut s, "`");
        },
        TypeExpr::Optional { inner, .. } => {
            push_str(&mut s, "Optional `");
            push_str(&mut s, inner.name.as_str());
            push_str(&mut s, "`");
        },
        TypeExpr::Applied { base, arg, .. } => {
            push_str(&mut s, "`");
            push_str(&mut s, base.name.as_str());
            push_str(&mut s, "` `");
            push_str(&mut s, arg.name.as_str());
            push_str(&mut s, "`");
        },
        TypeExpr::OneOf { variants, .. } => {
            push_str(&mut s, "one of: ");
            push_identifiers(&mut s, variants);
        },
    }
    assert(s@ =~= type_text(*ty));
    s
}

/// Appends the line of a constraint.
fn push_constraint_line(t: &mut String, c: &Constraint, indent: &str)
    ensures
        final(t)@ == old(t)@ + constraint_line(*c, indent@),
{
    let ghost start = t@;
    push_str(t, indent);
    push_str(t, indent);
    match c {
        Constraint::Unique { .. } => push_str(t, "unique"),
        Constraint::Default { value, .. } => {
            push_str(t, "default: ");
            let v = trimmed(value.text.as_str());
            push_str(t, v.as_str());
        },
        Constraint::Derived { expr, .. } => {
            push_str(t, "derived: ");
            let v = trimmed(expr.text.as_str());
            push_str(t, v.as_str());
        },
        Constraint::Invariant { predicate, .. } => {
            push_str(t, "invariant: ");
            let v = trimmed(predicate.text.as_str());
            push_str(t, v.as_str());
        },
        Constraint::AtLeast { count, unit, .. } => {
            push_str(t, "at least ");
            push_decimal(t, *count);
            match unit {
                Some(u) => {
                    push_str(t, " ");
                    push_str(t, u.value.as_str());
                },
                None => {},
            }
        },
    }
    push_char(t, '\n');
    assert(t@ =~= start + constraint_line(*c, indent@));
}

/// Appends the text of a field.
fn push_field_text(t: &mut String, f: &Field, indent: &str)
    ensures
        final(t)@ == old(t)@ + field_text(*f, indent@),
{
    let ghost start = t@;
    push_str(t, indent);
    push_str(t, "field ");
    push_str(t, f.name.value.as_str());
    match &f.ty {
        Some(ty) => {
            push_str(t, " (");
            let ts = type_string(ty);
            push_str(t, ts.as_str());
            push_str(t, ")");
        },
        None => {},
    }
    push_char(t, '\n');
    let ghost a = t@;
    let mut i: usize = 0;
    while i < f.constraints.len()
        invariant
            i <= f.constraints@.len(),
            t@ == a + constraint_lines(f.constraints@.take(i as int), indent@),
        decreases f.constraints.len() - i,
    {
        proof {
            assert(f.constraints@.take(i + 1).drop_last() =~= f.constraints@.take(i as int));
        }
        push_constraint_line(t, &f.constraints[i], indent);
        i += 1;
    }
    assert(f.constraints@.take(f.constraints@.len() as int) =~= f.constraints@);
    assert(t@ =~= start + field_text(*f, indent@));
}

/// The text of a concept.
fn concept_string(c: &Concept, indent: &str) -> (s: String)
    ensures
        s@ == concept_text(*c, indent@),
{
    let mut s = String::new();
    push_str(&mut s, "Concept ");
    push_str(&mut s, c.name.value.as_str());
    push_str(&mut s, ":");
    push_char(&mut s, '\n');
    let ghost a = s@;
    let mut i: usize = 0;
    while i < c.fields.len()
        invariant
            i <= c.fields@.len(),
            s@ == a + field_texts(c.fields@.take(i as int), indent@),
        decreases c.fields.len() - i,
    {
        proof {
            assert(c.fields@.take(i + 1).drop_last() =~= c.fields@.take(i as int));
        }
        push_field_text(&mut s, &c.fields[i], indent);
        i += 1;
    }
    assert(c.fields@.take(c.fields@.len() as int) =~= c.fields@);
    push_prose_lines(&mut s, &c.prose);
    assert(s@ =~= concept_text(*c, indent@));
    s
}

/// The header line of a behavior.
fn behavior_header(b: &Behavior) -> (s: String)
    ensures
        s@ == line(
            if b.implements@.len() == 0 {
                "Behavior "@ + b.name.value@ + ":"@
            } else {
                "Behavior "@ + b.name.value@ + " ["@ + join(req_id_values(b.implements@), ", "@)
                    + "]:"@
            },
        ),
{
    let mut s = String::new();
    push_str(&mut s, "Behavior ");
    push_str(&mut s, b.name.value.as_str());
    if b.implements.len() == 0 {
        push_str(&mut s, ":");
    } else {
        push_str(&mut s, " [");
        push_req_ids(&mut s, &b.implements);
        push_str(&mut s, "]:");
    }
    push_char(&mut s, '\n');
    s
}

/// The text of a behavior.
fn behavior_string(b: &Behavior, indent: &str) -> (s: String)
    ensures
        s@ == behavior_text(*b, indent@),
{
    let mut s = behavior_header(b);
    let given = indented(indent, "given: ");
    push_labelled_lines(&mut s, given.as_str(), &b.given);
    let ghost a = s@;
    match &b.returns {
        Some(r) => {
            let pre = indented(indent, "returns: ");
            push_labelled(&mut s, pre.as_str(), r.text.as_str());
        },
        None => {},
    }
    let ghost c = s@;
    let req = indented(indent, "requires: ");
    push_labelled_lines(&mut s, req.as_str(), &b.requires);
    let ens = indented(indent, "ensures: ");
    push_labelled_lines(&mut s, ens.as_str(), &b.ensures);
    push_ears_lines(&mut s, &b.ears_clauses, indent);
    push_prose_lines(&mut s, &b.prose);
    assert(s@ =~= behavior_text(*b, indent@));
    s
}

/// The text of an invariant.
fn invariant_string(inv: &Invariant, indent: &str) -> (s: String)
    ensures
        s@ == invariant_text(*inv, indent@),
{
    let mut s = String::new();
    push_str(&mut s, "Invariant ");
    push_str(&mut s, inv.name.value.as_str());
    push_str(&mut s, ":");
    push_char(&mut s, '\n');
    let ghost a = s@;
    let mut i: usize = 0;
    while i < inv.quantifiers.len()
        invariant
            i <= inv.quantifiers@.len(),
            s@ == a + quantifier_lines(inv.quantifiers@.take(i as int), indent@),
        decreases inv.quantifiers.len() - i,
    {
        proof {
            assert(inv.quantifiers@.take(i + 1).drop_last() =~= inv.quantifiers@.take(i as int));
        }
        let q = &inv.quantifiers[i];
        push_str(&mut s, indent);
        push_str(&mut s, "for each ");
        push_str(&mut s, q.var.value.as_str());
        push_str(&mut s, " in `");
        push_str(&mut s, q.collection.name.as_str());
        push_str(&mut s, "`:");
        push_char(&mut s, '\n');
        i += 1;
    }
    assert(inv.quantifiers@.take(inv.quantifiers@.len() as int) =~= inv.quantifiers@);
    let ghost b = s@;
    let mut i: usize = 0;
    while i < inv.prose.len()
        invariant
            i <= inv.prose@.len(),
            s@ == b + indented_prose_lines(inv.prose@.take(i as int), indent@),
        decreases inv.prose.len() - i,
    {
        proof {
            assert(inv.prose@.take(i + 1).drop_last() =~= inv.prose@.take(i as int));
        }
        if !is_blank_str(inv.prose[i].text.as_str()) {
            push_labelled(&mut s, indent, inv.prose[i].text.as_str());
        }
        i += 1;
    }
    assert(inv.prose@.take(inv.prose@.len() as int) =~= inv.prose@);
    assert(s@ =~= invariant_text(*inv, indent@));
    s
}

/// The word for a task field kind.
fn task_field_kind_word(k: TaskFieldKind) -> (r: &'static str)
    ensures
        r@ == task_field_word(k),
{
    match k {
        TaskFieldKind::File => "file",
        TaskFieldKind::Tests => "tests",
        TaskFieldKind::Depends => "depends",
        TaskFieldKind::Status => "status",
        TaskFieldKind::Evidence => "evidence",
        TaskFieldKind::Context => "context",
    }
}

/// The text of a task.
fn task_string(task: &Task) -> (s: String)
    ensures
        s@ == task_text(*task),
{
    let mut s = String::new();
    push_str(&mut s, "## ");
    push_str(&mut s, task.id.value.as_str());
    push_str(&mut s, ": ");
    let title = trimmed(task.title.text.as_str());
    push_str(&mut s, title.as_str());
    if task.req_refs.len() > 0 {
        push_str(&mut s, " [");
        push_req_ids(&mut s, &task.req_refs);
        push_str(&mut s, "]");
    }
    push_char(&mut s, '\n');
    let ghost a = s@;
    let mut i: usize = 0;
    while i < task.fields.len()
        invariant
            i <= task.fields@.len(),
            s@ == a + task_field_lines(task.fields@.take(i as int)),
        decreases task.fields.len() - i,
    {
        proof {
            assert(task.fields@.take(i + 1).drop_last() =~= task.fields@.take(i as int));
        }
        let mut pre = String::new();
        push_str(&mut pre, task_field_kind_word(task.fields[i].kind));
        push_str(&mut pre, ": ");
        push_labelled(&mut s, pre.as_str(), task.fields[i].value.text.as_str());
        i += 1;
    }
    assert(task.fields@.take(task.fields@.len() as int) =~= task.fields@);
    push_prose_lines(&mut s, &task.prose);
    assert(s@ =~= task_text(*task));
    s
}

/// The text of an aesthetic block.
fn aesthetic_string(a: &Aesthetic, indent: &str) -> (s: String)
    ensures
        s@ == aesthetic_text(*a, indent@),
{
    let mut s = String::new();
    push_str(&mut s, "Aesthetic ");
    push_str(&mut s, a.name.value.as_str());
    push_str(&mut s, ":");
    push_char(&mut s, '\n');
    let ghost h = s@;
    let mut i: usize = 0;
    while i < a.fields.len()
        invariant
            i <= a.fields@.len(),
            s@ == h + aesthetic_field_lines(a.fields@.take(i as int), indent@),
        decreases a.fields.len() - i,
    {
        proof {
            assert(a.fields@.take(i + 1).drop_last() =~= a.fields@.take(i as int));
        }
        let f = &a.fields[i];
        let mut pre = String::new();
        push_str(&mut pre, indent);
        push_str(&mut pre, f.name.value.as_str());
        push_str(&mut pre, ": ");
        if f.is_soft {
            push_str(&mut pre, "[~] ");
        }
        push_labelled(&mut s, pre.as_str(), f.value.text.as_str());
        i += 1;
    }
    assert(a.fields@.take(a.fields@.len() as int) =~= a.fields@);
    push_prose_lines(&mut s, &a.prose);
    assert(s@ =~= aesthetic_text(*a, indent@));
    s
}

/// The text of a foreign block.
fn foreign_string(b: &ForeignBlock) -> (s: String)
    ensures
        s@ == foreign_text(*b),
{
    let mut s = String::new();
    push_str(&mut s, "```");
    push_str(&mut s, b.language.as_str());
    push_char(&mut s, '\n');
    let ghost h = s@;
    let mut i: usize = 0;
    while i < b.content.len()
        invariant
            i <= b.content@.len(),
            s@ == h + verbatim_lines(b.content@.take(i as int)),
        decreases b.content.len() - i,
    {
        proof {
            assert(b.content@.take(i + 1).drop_last() =~= b.content@.take(i as int));
        }
        push_str(&mut s, b.content[i].text.as_str());
        push_char(&mut s, '\n');
        i += 1;
    }
    assert(b.content@.take(b.content@.len() as int) =~= b.content@);
    push_str(&mut s, "```");
    push_char(&mut s, '\n');
    assert(s@ =~= foreign_text(*b));
    s
}

/// The text of a subsection.
fn subsection_string(sub: &Subsection) -> (s: String)
    ensures
        s@ == subsection_text(*sub),
{
    let mut s = String::new();
    push_labelled(&mut s, "## ", sub.header.text.as_str());
    push_prose_lines(&mut s, &sub.body);
    s
}

/// The text of a section element.
fn element_string(c: &SectionContent, indent: &str) -> (s: String)
    ensures
        s@ == element_text(*c, indent@),
{
    match c {
        SectionContent::Requirement(r) => requirement_string(r, indent),
        SectionContent::Concept(x) => concept_string(x, indent),
        SectionContent::Behavior(b) => behavior_string(b, indent),
        SectionContent::Invariant(i) => invariant_string(i, indent),
        SectionContent::Task(t) => task_string(t),
        SectionContent::Aesthetic(a) => aesthetic_string(a, indent),
        SectionContent::ForeignBlock(b) => foreign_string(b),
        SectionContent::Subsection(s) => subsection_string(s),
        SectionContent::Prose(p) => {
            let mut s = String::new();
            push_prose_line(&mut s, p);
            s
        },
    }
}

// ============================================================================
// The formatter
// ============================================================================

/// The formatter's state: its configuration and the text written so far.
struct Formatter {
    config: FormatConfig,
    output: Vec<char>,
}

impl Formatter {
    fn new(config: FormatConfig) -> (f: Self)
        ensures
            f.config == config,
            f.output@.len() == 0,
    {
        Formatter { config, output: Vec::new() }
    }

    /// Appends `s`.
    fn write(&mut self, s: &str)
        ensures
            final(self).output@ == old(self).output@ + s@,
            final(self).config == old(self).config,
    {
        let cs = chars_of(s);
        let ghost start = self.output@;
        let mut i: usize = 0;
        while i < cs.len()
            invariant
                i <= cs@.len(),
                self.output@ == start + cs@.take(i as int),
                self.config == old(self).config,
            decreases cs.len() - i,
        {
            self.output.push(cs[i]);
            i += 1;
            assert(self.output@ =~= start + cs@.take(i as int));
        }
        assert(cs@.take(cs@.len() as int) =~= cs@);
    }

    /// Ends the text with an empty line, unless it is empty or already does.
    fn blank_line(&mut self)
        ensures
            final(self).output@ == blank(old(self).output@),
            final(self).config == old(self).config,
    {
        let n = self.output.len();
        if !(n == 0 || (n >= 2 && self.output[n - 1] == '\n' && self.output[n - 2] == '\n')) {
            self.output.push('\n');
        }
    }

    /// Writes one section element.
    fn format_section_content(&mut self, content: &SectionContent)
        ensures
            final(self).output@ == content_out(old(self).output@, *content, old(self).config.indent@),
            final(self).config == old(self).config,
    {
        let text = element_string(content, self.config.indent.as_str());
        self.write(text.as_str());
        match content {
            SectionContent::Prose(_) => {},
            _ => self.blank_line(),
        }
    }

    /// Writes a section: its header, an empty line, its elements.
    fn format_section(&mut self, section: &Section)
        ensures
            final(self).output@ == section_out(old(self).output@, *section, old(self).config.indent@),
            final(self).config == old(self).config,
    {
        let mut header = String::new();
        push_labelled(&mut header, "# ", section.header.text.as_str());
        self.write(header.as_str());
        self.blank_line();
        let ghost base = self.output@;
        let ghost indent = self.config.indent@;
        let mut i: usize = 0;
        while i < section.contents.len()
            invariant
                i <= section.contents@.len(),
                indent == self.config.indent@,
                self.config == old(self).config,
                self.output@ == contents_out(base, section.contents@.take(i as int), indent),
            decreases section.contents.len() - i,
        {
            proof {
                assert(section.contents@.take(i + 1).drop_last() =~= section.contents@.take(i as int));
            }
            self.format_section_content(&section.contents[i]);
            i += 1;
        }
        assert(section.contents@.take(section.contents@.len() as int) =~= section.contents@);
    }

    /// Writes the file.
    fn format_file(&mut self, file: &SourceFile)
        requires
            old(self).output@.len() == 0,
        ensures
            final(self).output@ == formatted(*file, old(self).config),
    {
        match &file.spec {
            Some(spec) => {
                let mut s = String::new();
                push_str(&mut s, "spec ");
                push_str(&mut s, spec.name.value.as_str());
                push_char(&mut s, '\n');
                self.write(s.as_str());
                self.blank_line();
            },
            None => {},
        }
        let ghost head = self.output@;
        let mut i: usize = 0;
        while i < file.imports.len()
            invariant
                i <= file.imports@.len(),
                self.config == old(self).config,
                self.output@ == head + import_lines(file.imports@.take(i as int)),
            decreases file.imports.len() - i,
        {
            proof {
                assert(file.imports@.take(i + 1).drop_last() =~= file.imports@.take(i as int));
            }
            let s = import_string(&file.imports[i]);
            self.write(s.as_str());
            i += 1;
        }
        assert(file.imports@.take(file.imports@.len() as int) =~= file.imports@);
        if file.imports.len() > 0 {
            self.blank_line();
        }
        let ghost before = self.output@;
        let ghost indent = self.config.indent@;
        let between = self.config.blank_between_sections;
        let mut i: usize = 0;
        while i < file.sections.len()
            invariant
                i <= file.sections@.len(),
                self.config == old(self).config,
                indent == self.config.indent@,
                between == self.config.blank_between_sections,
                self.output@ == sections_out(before, file.sections@.take(i as int), indent, between),
            decreases file.sections.len() - i,
        {
            proof {
                assert(file.sections@.take(i + 1).drop_last() =~= file.sections@.take(i as int));
            }
            if i > 0 && between {
                self.blank_line();
            }
            self.format_section(&file.sections[i]);
            i += 1;
        }
        assert(file.sections@.take(file.sections@.len() as int) =~= file.sections@);
    }
}

/// The line of an import.
fn import_string(import: &Import) -> (s: String)
    ensures
        s@ == import_line(*import),
{
    let mut s = String::new();
    match &import.kind {
        ImportKind::Items { from, items } => {
            match from {
                Some(path) => {
                    push_str(&mut s, "import from \"");
                    push_str(&mut s, path.value.as_str());
                    push_str(&mut s, "\": ");
                },
                None => push_str(&mut s, "import: "),
            }
            let ghost head = s@;
            let ghost vs = import_item_texts(items@);
            let mut i: usize = 0;
            while i < items.len()
                invariant
                    i <= items@.len(),
                    vs == import_item_texts(items@),
                    s@ == head + join(vs.take(i as int), ", "@),
                decreases items.len() - i,
            {
                proof {
                    crate::text::lemma_join_push(vs, ", "@, i as int);
                }
                if i > 0 {
                    push_str(&mut s, ", ");
                }
                let item = &items[i];
                let ghost b = s@;
                push_str(&mut s, "`");
                push_str(&mut s, item.reference.name.as_str());
                push_str(&mut s, "`");
                match &item.alias {
                    Some(a) => {
                        push_str(&mut s, " as ");
                        push_str(&mut s, a.value.as_str());
                    },
                    None => {},
                }
                assert(s@ =~= b + import_item_text(*item));
                i += 1;
            }
            assert(vs.take(vs.len() as int) =~= vs);
        },
        ImportKind::Module { path, alias } => {
            push_str(&mut s, "import \"");
            push_str(&mut s, path.value.as_str());
            push_str(&mut s, "\" as ");
            push_str(&mut s, alias.value.as_str());
        },
    }
    push_char(&mut s, '\n');
    assert(s@ =~= import_line(*import));
    s
}

/// Format a source file to a string.
pub fn format(file: &SourceFile, config: &FormatConfig) -> (out: String)
    ensures
        out@ == formatted(*file, *config),
{
    let cfg = FormatConfig {
        indent: config.indent.clone(),
        max_width: config.max_width,
        blank_between_sections: config.blank_between_sections,
    };
    let mut formatter = Formatter::new(cfg);
    formatter.format_file(file);
    crate::text::string_from_chars(&formatter.output)
}

} // verus!
