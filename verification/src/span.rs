//! Source location tracking for AST nodes.
use vstd::prelude::*;

use crate::text::{decimal, push_char, push_decimal};

verus! {

/// A span representing a range in source code.
#[derive(Debug, Clone, Copy, PartialEq, Eq, Hash)]
pub struct Span {
    /// Start byte offset (0-indexed).
    pub start: u32,
    /// End byte offset (exclusive).
    pub end: u32,
    /// Start line (0-indexed).
    pub start_line: u32,
    /// Start column (0-indexed, in bytes).
    pub start_col: u32,
    /// End line (0-indexed).
    pub end_line: u32,
    /// End column (0-indexed, in bytes).
    pub end_col: u32,
}

/// The span that `dummy` returns.
pub open spec fn dummy_span() -> Span {
    Span { start: 0, end: 0, start_line: 0, start_col: 0, end_line: 0, end_col: 0 }
}

/// The span covering both `a` and `b`: start position of whichever starts
/// first (`a` on a tie), end position of whichever ends last (`a` on a tie).
pub open spec fn merged(a: Span, b: Span) -> Span {
    let (start, start_line, start_col) = if a.start <= b.start {
        (a.start, a.start_line, a.start_col)
    } else {
        (b.start, b.start_line, b.start_col)
    };
    let (end, end_line, end_col) = if a.end >= b.end {
        (a.end, a.end_line, a.end_col)
    } else {
        (b.end, b.end_line, b.end_col)
    };
    Span { start, end, start_line, start_col, end_line, end_col }
}

/// `line:col-line:col`, each component 1-indexed.
pub open spec fn span_display(s: Span) -> Seq<char> {
    decimal(s.start_line as nat + 1) + seq![':'] + decimal(s.start_col as nat + 1) + seq!['-']
        + decimal(s.end_line as nat + 1) + seq![':'] + decimal(s.end_col as nat + 1)
}

impl Default for Span {
    fn default() -> (s: Self)
        ensures
            s == dummy_span(),
    {
        Span::dummy()
    }
}

impl Span {
    /// Create a new span from byte offsets and positions.
    pub fn new(start: u32, end: u32, start_line: u32, start_col: u32, end_line: u32, end_col: u32) -> (s: Self)
        ensures
            s == (Span { start, end, start_line, start_col, end_line, end_col }),
    {
        Span { start, end, start_line, start_col, end_line, end_col }
    }

    /// Create a dummy span (for synthesized nodes).
    pub fn dummy() -> (s: Self)
        ensures
            s == dummy_span(),
    {
        Span { start: 0, end: 0, start_line: 0, start_col: 0, end_line: 0, end_col: 0 }
    }

    /// Check if this span is a dummy span.
    pub fn is_dummy(&self) -> (b: bool)
        ensures
            b == (self.start == 0 && self.end == 0),
    {
        self.start == 0 && self.end == 0
    }

    /// Get the length in bytes.
    pub fn len(&self) -> (n: u32)
        requires
            self.start <= self.end,
        ensures
            n == self.end - self.start,
    {
        self.end - self.start
    }

    /// Check if the span is empty.
    pub fn is_empty(&self) -> (b: bool)
        ensures
            b == (self.start == self.end),
    {
        self.start == self.end
    }

    /// Merge two spans to create a span covering both.
    pub fn merge(&self, other: &Self) -> (s: Self)
        ensures
            s == merged(*self, *other),
    {
        let (start, start_line, start_col) = if self.start <= other.start {
            (self.start, self.start_line, self.start_col)
        } else {
            (other.start, other.start_line, other.start_col)
        };
        let (end, end_line, end_col) = if self.end >= other.end {
            (self.end, self.end_line, self.end_col)
        } else {
            (other.end, other.end_line, other.end_col)
        };
        Span { start, end, start_line, start_col, end_line, end_col }
    }

    /// The span as `line:col-line:col`, 1-indexed.
    pub fn to_string(&self) -> (r: String)
        ensures
            r@ == span_display(*self),
    {
        let mut r = String::new();
        push_decimal(&mut r, self.start_line as u64 + 1);
        push_char(&mut r, ':');
        push_decimal(&mut r, self.start_col as u64 + 1);
        push_char(&mut r, '-');
        push_decimal(&mut r, self.end_line as u64 + 1);
        push_char(&mut r, ':');
        push_decimal(&mut r, self.end_col as u64 + 1);
        r
    }
}

/// Merging covers both spans: it starts where the earlier one starts and
/// ends where the later one ends.
pub proof fn merge_covers(a: Span, b: Span)
    ensures
        merged(a, b).start <= a.start && merged(a, b).start <= b.start,
        merged(a, b).end >= a.end && merged(a, b).end >= b.end,
        merged(a, b).start == a.start || merged(a, b).start == b.start,
        merged(a, b).end == a.end || merged(a, b).end == b.end,
{
}

/// Merging a span with itself gives the span back.
pub proof fn merge_idempotent(a: Span)
    ensures
        merged(a, a) == a,
{
}

/// Byte offsets of a merge do not depend on the order of the operands, and
/// merging is associative on them.
pub proof fn merge_offsets_commute_associate(a: Span, b: Span, c: Span)
    ensures
        merged(a, b).start == merged(b, a).start,
        merged(a, b).end == merged(b, a).end,
        merged(merged(a, b), c).start == merged(a, merged(b, c)).start,
        merged(merged(a, b), c).end == merged(a, merged(b, c)).end,
{
}

} // verus!
