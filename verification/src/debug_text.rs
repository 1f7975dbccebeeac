//! The debug text of syntax-tree values, as Rust's derived `Debug` writes
//! them: `Name { field: value, .. }`, strings quoted and escaped, numbers in
//! decimal, options as `Some(..)` or `None`.
use vstd::prelude::*;

use crate::ast::{Constraint, Identifier, Prose};
use crate::span::Span;
use crate::text::{chars_of, decimal, push_decimal, push_str};

verus! {

/// What std `char::escape_debug` gives for a character.
pub uninterp spec fn char_escape_debug(c: char) -> Seq<char>;

/// std `char::escape_debug`, collected into a string. Its result is named
/// above; as its documentation gives it, printable ASCII other than the
/// backslash and the quotes stands for itself, and the backslash, the
/// quotes, tab, carriage return and line feed are written with a backslash.
#[verifier::external_body]
fn escape_debug_char(c: char) -> (r: String)
    ensures
        r@ == char_escape_debug(c),
        (' ' <= c <= '~' && c != '\\' && c != '"' && c != '\'') ==> r@ == seq![c],
        c == '\\' ==> r@ == seq!['\\', '\\'],
        c == '"' ==> r@ == seq!['\\', '"'],
        c == '\'' ==> r@ == seq!['\\', '\''],
        c == '\t' ==> r@ == seq!['\\', 't'],
        c == '\r' ==> r@ == seq!['\\', 'r'],
        c == '\n' ==> r@ == seq!['\\', 'n'],
{
    c.escape_debug().to_string()
}

/// A character inside a debug-written string: as `char::escape_debug` gives
/// it, except that a single quote is left as it is.
pub open spec fn str_char_debug(c: char) -> Seq<char> {
    if c == '\'' {
        seq![c]
    } else {
        char_escape_debug(c)
    }
}

/// The characters of a debug-written string, without the quotes.
pub open spec fn escaped(s: Seq<char>) -> Seq<char>
    decreases s.len(),
{
    if s.len() == 0 {
        Seq::empty()
    } else {
        escaped(s.drop_last()) + str_char_debug(s.last())
    }
}

/// A string as `Debug` writes it.
pub open spec fn str_debug(s: Seq<char>) -> Seq<char> {
    "\""@ + escaped(s) + "\""@
}

/// A span as its derived `Debug` writes it.
pub open spec fn span_debug(s: Span) -> Seq<char> {
    "Span { start: "@ + decimal(s.start as nat) + ", end: "@ + decimal(s.end as nat) + ", start_line: "@
        + decimal(s.start_line as nat) + ", start_col: "@ + decimal(s.start_col as nat) + ", end_line: "@
        + decimal(s.end_line as nat) + ", end_col: "@ + decimal(s.end_col as nat) + " }"@
}

/// A paragraph as its derived `Debug` writes it.
pub open spec fn prose_debug(p: Prose) -> Seq<char> {
    "Prose { text: "@ + str_debug(p.text@) + ", span: "@ + span_debug(p.span) + " }"@
}

/// An identifier as its derived `Debug` writes it.
pub open spec fn identifier_debug(i: Identifier) -> Seq<char> {
    "Identifier { value: "@ + str_debug(i.value@) + ", span: "@ + span_debug(i.span) + " }"@
}

/// A constraint as its derived `Debug` writes it.
pub open spec fn constraint_debug_spec(c: Constraint) -> Seq<char> {
    match c {
        Constraint::Unique { span } => "Unique { span: "@ + span_debug(span) + " }"@,
        Constraint::Default { value, span } => "Default { value: "@ + prose_debug(value) + ", span: "@
            + span_debug(span) + " }"@,
        Constraint::Derived { expr, span } => "Derived { expr: "@ + prose_debug(expr) + ", span: "@
            + span_debug(span) + " }"@,
        Constraint::Invariant { predicate, span } => "Invariant { predicate: "@ + prose_debug(predicate)
            + ", span: "@ + span_debug(span) + " }"@,
        Constraint::AtLeast { count, unit, span } => "AtLeast { count: "@ + decimal(count as nat)
            + ", unit: "@ + match unit {
            Some(i) => "Some("@ + identifier_debug(i) + ")"@,
            None => "None"@,
        } + ", span: "@ + span_debug(span) + " }"@,
    }
}

fn push_str_debug(out: &mut String, s: &str)
    ensures
        final(out)@ == old(out)@ + str_debug(s@),
{
    push_str(out, "\"");
    let v = chars_of(s);
    let ghost start = out@;
    let mut i: usize = 0;
    while i < v.len()
        invariant
            i <= v@.len(),
            v@ == s@,
            out@ == start + escaped(v@.take(i as int)),
        decreases v.len() - i,
    {
        proof {
            assert(v@.take(i + 1).drop_last() =~= v@.take(i as int));
            assert(v@.take(i + 1).last() == v@[i as int]);
        }
        let c = v[i];
        if c == '\'' {
            crate::text::push_char(out, c);
            assert(str_char_debug(c) =~= seq![c]);
        } else {
            let e = escape_debug_char(c);
            push_str(out, e.as_str());
        }
        proof {
            assert(out@ =~= start + escaped(v@.take(i + 1)));
        }
        i += 1;
    }
    assert(v@.take(v@.len() as int) =~= v@);
    push_str(out, "\"");
    assert(out@ =~= old(out)@ + str_debug(s@));
}

fn push_span_debug(out: &mut String, s: Span)
    ensures
        final(out)@ == old(out)@ + span_debug(s),
{
    push_str(out, "Span { start: ");
    push_decimal(out, s.start as u64);
    push_str(out, ", end: ");
    push_decimal(out, s.end as u64);
    push_str(out, ", start_line: ");
    push_decimal(out, s.start_line as u64);
    push_str(out, ", start_col: ");
    push_decimal(out, s.start_col as u64);
    push_str(out, ", end_line: ");
    push_decimal(out, s.end_line as u64);
    push_str(out, ", end_col: ");
    push_decimal(out, s.end_col as u64);
    push_str(out, " }");
    assert(out@ =~= old(out)@ + span_debug(s));
}

fn push_prose_debug(out: &mut String, p: &Prose)
    ensures
        final(out)@ == old(out)@ + prose_debug(*p),
{
    push_str(out, "Prose { text: ");
    push_str_debug(out, p.text.as_str());
    push_str(out, ", span: ");
    push_span_debug(out, p.span);
    push_str(out, " }");
    assert(out@ =~= old(out)@ + prose_debug(*p));
}

fn push_identifier_debug(out: &mut String, i: &Identifier)
    ensures
        final(out)@ == old(out)@ + identifier_debug(*i),
{
    push_str(out, "Identifier { value: ");
    push_str_debug(out, i.value.as_str());
    push_str(out, ", span: ");
    push_span_debug(out, i.span);
    push_str(out, " }");
    assert(out@ =~= old(out)@ + identifier_debug(*i));
}

/// A constraint with one paragraph field, named `label`, in a variant named `variant`.
fn push_prose_variant(out: &mut String, variant: &str, label: &str, p: &Prose, span: Span)
    ensures
        final(out)@ == old(out)@ + variant@ + " { "@ + label@ + ": "@ + prose_debug(*p) + ", span: "@
            + span_debug(span) + " }"@,
{
    push_str(out, variant);
    push_str(out, " { ");
    push_str(out, label);
    push_str(out, ": ");
    push_prose_debug(out, p);
    push_str(out, ", span: ");
    push_span_debug(out, span);
    push_str(out, " }");
    assert(out@ =~= old(out)@ + variant@ + " { "@ + label@ + ": "@ + prose_debug(*p) + ", span: "@
        + span_debug(span) + " }"@);
}

/// The text of a constraint as its derived `Debug` writes it.
pub fn constraint_text(c: &Constraint) -> (r: String)
    ensures
        r@ == constraint_debug_spec(*c),
{
    let mut out = String::new();
    match c {
        Constraint::Unique { span } => {
            push_str(&mut out, "Unique { span: ");
            push_span_debug(&mut out, *span);
            push_str(&mut out, " }");
            assert(out@ =~= constraint_debug_spec(*c));
        },
        Constraint::Default { value, span } => {
            push_prose_variant(&mut out, "Default", "value", value, *span);
            proof {
                reveal_strlit("Default");
                reveal_strlit("value");
                reveal_strlit(" { ");
                reveal_strlit(": ");
                reveal_strlit("Default { value: ");
            }
            assert(out@ =~= constraint_debug_spec(*c));
        },
        Constraint::Derived { expr, span } => {
            push_prose_variant(&mut out, "Derived", "expr", expr, *span);
            proof {
                reveal_strlit("Derived");
                reveal_strlit("expr");
                reveal_strlit(" { ");
                reveal_strlit(": ");
                reveal_strlit("Derived { expr: ");
            }
            assert(out@ =~= constraint_debug_spec(*c));
        },
        Constraint::Invariant { predicate, span } => {
            push_prose_variant(&mut out, "Invariant", "predicate", predicate, *span);
            proof {
                reveal_strlit("Invariant");
                reveal_strlit("predicate");
                reveal_strlit(" { ");
                reveal_strlit(": ");
                reveal_strlit("Invariant { predicate: ");
            }
            assert(out@ =~= constraint_debug_spec(*c));
        },
        Constraint::AtLeast { count, unit, span } => {
            push_str(&mut out, "AtLeast { count: ");
            push_decimal(&mut out, *count);
            push_str(&mut out, ", unit: ");
            match unit {
                Some(i) => {
                    push_str(&mut out, "Some(");
                    push_identifier_debug(&mut out, i);
                    push_str(&mut out, ")");
                },
                None => {
                    push_str(&mut out, "None");
                },
            }
            push_str(&mut out, ", span: ");
            push_span_debug(&mut out, *span);
            push_str(&mut out, " }");
            assert(out@ =~= constraint_debug_spec(*c));
        },
    }
    out
}

} // verus!
