//! A small interpreter for an S-expression language: a reader, a
//! tree-walking evaluator with tail calls, lexical environments, macros,
//! structured errors and the host operations of the root environment.
//!
//! Every function is verified against a definition of the language over
//! mathematical models of its values and of the interpreter's state.

pub mod env;
pub mod equality;
pub mod eval;
pub mod hash;
pub mod laws;
pub mod line_count;
pub mod parser;
pub mod roundtrip;
pub mod table;
pub mod text;
pub mod types;
pub mod validity;
