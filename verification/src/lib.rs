//! Topos: a semantic contract language for human-AI collaboration.
#![allow(unused_imports)]

pub mod text;
pub mod debug_text;
pub mod strmap;
pub mod span;
pub mod ast;
pub mod symbols;
pub mod traceability;
pub mod resolve;
pub mod holes;
pub mod anchors;
pub mod diagnostics;
pub mod diff;
pub mod strategy;
pub mod semantic;
pub mod client;
pub mod llm;
pub mod context;
pub mod format;
pub mod cst;
pub mod grammars;
pub mod regex_match;
pub mod foreign;
pub mod polyglot;
pub mod lsp;
pub mod server;
pub mod cli;
pub mod legacy;
pub mod parser;
