//! A tree-walking interpreter for a small imperative scripting language:
//! programs arrive as ready-built syntax trees and are evaluated against a
//! chain of lexical scopes supporting declaration, shadowing,
//! assignment-by-reference and first-class closures.

pub mod ast;
pub mod frame;
pub mod interp;
pub mod laws;
