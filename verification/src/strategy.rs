//! Comparison strategy selection for spec drift detection.
//!
//! - **Structural**: pure AST-based comparison
//! - **Semantic**: LLM-based meaning comparison
//! - **Hybrid**: structural + semantic for prose content
use vstd::prelude::*;

use crate::text::{push_str, str_eq, to_lowercase, lowercased};

verus! {

/// Comparison strategy for drift detection.
#[derive(Debug, Clone, Copy, PartialEq, Eq, Structural)]
pub enum ComparisonStrategy {
    /// Pure structural comparison (AST-based).
    /// Fast, deterministic, no external dependencies.
    StructuralOnly,
    /// Pure semantic comparison (LLM-based).
    /// Understands meaning, but slower and requires MCP server.
    Semantic,
    /// Hybrid: structural for structure, semantic for prose; the default.
    Hybrid,
}

/// Types of spec elements for strategy selection.
#[derive(Debug, Clone, Copy, PartialEq, Eq, Structural)]
pub enum ElementType {
    Requirement,
    Concept,
    Behavior,
    Task,
    Invariant,
}

impl Default for ComparisonStrategy {
    fn default() -> (s: Self)
        ensures
            s == ComparisonStrategy::Hybrid,
    {
        ComparisonStrategy::Hybrid
    }
}

/// The strategy chosen for an element type.
pub open spec fn strategy_for(element_type: ElementType, has_prose: bool) -> ComparisonStrategy {
    match element_type {
        ElementType::Concept => ComparisonStrategy::StructuralOnly,
        ElementType::Task => ComparisonStrategy::StructuralOnly,
        ElementType::Behavior => if has_prose {
            ComparisonStrategy::Hybrid
        } else {
            ComparisonStrategy::StructuralOnly
        },
        ElementType::Requirement => ComparisonStrategy::Hybrid,
        ElementType::Invariant => ComparisonStrategy::Semantic,
    }
}

/// The name of a strategy.
pub open spec fn strategy_name(s: ComparisonStrategy) -> Seq<char> {
    match s {
        ComparisonStrategy::StructuralOnly => "structural"@,
        ComparisonStrategy::Semantic => "semantic"@,
        ComparisonStrategy::Hybrid => "hybrid"@,
    }
}

/// The strategy named by `s`, compared without regard to case.
pub open spec fn strategy_named(s: Seq<char>) -> Option<ComparisonStrategy> {
    let l = lowercased(s);
    if l == "structural"@ {
        Some(ComparisonStrategy::StructuralOnly)
    } else if l == "semantic"@ {
        Some(ComparisonStrategy::Semantic)
    } else if l == "hybrid"@ {
        Some(ComparisonStrategy::Hybrid)
    } else {
        None
    }
}

impl ComparisonStrategy {
    /// Get the strategy for a specific element type:
    /// concepts and tasks are compared structurally, behaviors structurally
    /// unless they have prose (then hybrid), requirements hybrid, and
    /// invariants (constraints in prose) semantically.
    pub fn for_element(element_type: ElementType, has_prose: bool) -> (s: Self)
        ensures
            s == strategy_for(element_type, has_prose),
    {
        match element_type {
            ElementType::Concept => ComparisonStrategy::StructuralOnly,
            ElementType::Task => ComparisonStrategy::StructuralOnly,
            ElementType::Behavior => if has_prose {
                ComparisonStrategy::Hybrid
            } else {
                ComparisonStrategy::StructuralOnly
            },
            ElementType::Requirement => ComparisonStrategy::Hybrid,
            ElementType::Invariant => ComparisonStrategy::Semantic,
        }
    }

    /// Check if this strategy requires an MCP server.
    pub fn requires_mcp(&self) -> (b: bool)
        ensures
            b == (*self == ComparisonStrategy::Semantic || *self == ComparisonStrategy::Hybrid),
    {
        match self {
            ComparisonStrategy::StructuralOnly => false,
            ComparisonStrategy::Semantic => true,
            ComparisonStrategy::Hybrid => true,
        }
    }

    /// Get the fallback strategy when MCP is unavailable.
    pub fn fallback(&self) -> (s: Self)
        ensures
            s == ComparisonStrategy::StructuralOnly,
    {
        match self {
            ComparisonStrategy::StructuralOnly => ComparisonStrategy::StructuralOnly,
            ComparisonStrategy::Semantic => ComparisonStrategy::StructuralOnly,
            ComparisonStrategy::Hybrid => ComparisonStrategy::StructuralOnly,
        }
    }

    /// Human-readable name.
    pub fn name(&self) -> (r: &'static str)
        ensures
            r@ == strategy_name(*self),
    {
        match self {
            ComparisonStrategy::StructuralOnly => "structural",
            ComparisonStrategy::Semantic => "semantic",
            ComparisonStrategy::Hybrid => "hybrid",
        }
    }

    /// Parse a strategy name, without regard to case; the name of each
    /// strategy parses back to it.
    pub fn parse_name(s: &str) -> (r: Result<Self, String>)
        ensures
            match r {
                Ok(v) => strategy_named(s@) == Some(v),
                Err(e) => strategy_named(s@) is None && e@ == "Unknown strategy: "@ + s@,
            },
            forall|t: ComparisonStrategy| s@ == strategy_name(t) ==> r == Ok::<ComparisonStrategy, String>(t),
    {
        proof {
            reveal_strlit("structural");
            reveal_strlit("semantic");
            reveal_strlit("hybrid");
        }
        let lower = to_lowercase(s);
        proof {
            assert forall|t: ComparisonStrategy| s@ == strategy_name(t) implies lower@ == strategy_name(t) by {
                match t {
                    ComparisonStrategy::StructuralOnly => {},
                    ComparisonStrategy::Semantic => {},
                    ComparisonStrategy::Hybrid => {},
                }
                assert(forall|i: int| 0 <= i < s@.len() ==> 'a' <= #[trigger] s@[i] <= 'z');
            }
            assert("structural"@.len() == 10);
            assert("semantic"@.len() == 8);
            assert("hybrid"@.len() == 6);
        }
        if str_eq(lower.as_str(), "structural") {
            Ok(ComparisonStrategy::StructuralOnly)
        } else if str_eq(lower.as_str(), "semantic") {
            Ok(ComparisonStrategy::Semantic)
        } else if str_eq(lower.as_str(), "hybrid") {
            Ok(ComparisonStrategy::Hybrid)
        } else {
            let mut e = String::new();
            push_str(&mut e, "Unknown strategy: ");
            push_str(&mut e, s);
            Err(e)
        }
    }
}

impl std::str::FromStr for ComparisonStrategy {
    type Err = String;

    fn from_str(s: &str) -> (r: Result<Self, Self::Err>)
        ensures
            match r {
                Ok(v) => strategy_named(s@) == Some(v),
                Err(e) => strategy_named(s@) is None && e@ == "Unknown strategy: "@ + s@,
            },
            forall|t: ComparisonStrategy| s@ == strategy_name(t) ==> r == Ok::<ComparisonStrategy, String>(t),
    {
        ComparisonStrategy::parse_name(s)
    }
}

/// The word used for an element type.
pub open spec fn element_word(e: ElementType) -> Seq<char> {
    match e {
        ElementType::Requirement => "requirement"@,
        ElementType::Concept => "concept"@,
        ElementType::Behavior => "behavior"@,
        ElementType::Task => "task"@,
        ElementType::Invariant => "invariant"@,
    }
}

impl ElementType {
    /// The word used for this element type.
    pub fn as_str(&self) -> (r: &'static str)
        ensures
            r@ == element_word(*self),
    {
        match self {
            ElementType::Requirement => "requirement",
            ElementType::Concept => "concept",
            ElementType::Behavior => "behavior",
            ElementType::Task => "task",
            ElementType::Invariant => "invariant",
        }
    }
}

} // verus!
