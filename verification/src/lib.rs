//! Code generation for reactive functions.

pub mod codegen;
pub mod codegen_ast;
pub mod collections;
pub mod extract_scope_destructuring;
pub mod graph;
pub mod hir;
pub mod sorting;
pub mod text;
