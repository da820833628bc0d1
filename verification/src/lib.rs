//! A small front end for an arithmetic expression language.
//!
//! Source text is scanned into tokens, the tokens are parsed into a syntax
//! tree, and the tree is evaluated to a signed integer. Problems found while
//! parsing are collected as diagnostics instead of stopping the parse.

pub mod text;
pub mod ast;
pub mod diagnostics;
pub mod pipeline;
pub mod terminal;
