//! A small tree-walking evaluator for a subset of an ECMAScript-like
//! language: runtime values, objects, scopes, built-in objects and the
//! interpreter that runs statement trees against them.
//!
//! - [`number`] and [`text`]: numbers as IEEE-754 binary64 patterns, and
//!   their decimal texts;
//! - [`value`]: values, objects, and the heap that objects live in;
//! - [`ast`]: the statement tree;
//! - [`state`] and [`semantics`]: the state of an interpreter and the
//!   meaning of expressions and statements, as mathematics;
//! - [`builtins`] and [`json`]: the built-in objects and JSON documents;
//! - [`exec`]: the interpreter itself, whose contracts say that it does what
//!   the meaning says;
//! - [`laws`] and [`invariants`]: what is proved of all of it.

pub mod ast;
pub mod builtins;
pub mod error;
pub mod exec;
pub mod invariants;
pub mod json;
pub mod laws;
pub mod number;
pub mod semantics;
pub mod state;
pub mod text;
pub mod value;
