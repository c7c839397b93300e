//! A verified tree-walking interpreter for a small dynamically-typed
//! scripting language: arithmetic and logic expressions, variables, blocks,
//! conditionals, loops, functions with closures, and a few built-ins.
//!
//! Numbers are IEEE-754 double-precision values carried as their 64-bit
//! encodings; arithmetic on small integer-valued numbers is computed and
//! specified exactly, everything else is delegated to a software
//! floating-point library behind a small trusted boundary.

pub mod token;
pub mod error;
pub mod source;
pub mod numeric;
pub mod expr;
pub mod stmt;
pub mod env;
pub mod semantics;
pub mod eval;
pub mod parser;
pub mod std_fn;
pub mod interp;
pub mod laws;
