//! Multi-target code generation layer: lowers a fully typed module tree into
//! source text for several host runtimes, through a width-aware pretty-printing
//! document engine.

pub mod ast;
pub mod codegen;
pub mod doc;
pub mod fsharp;
pub mod shape;
