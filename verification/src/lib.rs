//! A verified compiler core and execution engine for BabyDuck, a small
//! imperative language with typed variables, arithmetic, conditionals,
//! bounded loops, value-parameter procedures, and print statements.
//!
//! The crate covers the pipeline from an already-parsed syntax tree to
//! observable program output: the symbol-and-address directory, the
//! quadruple generator with jump backpatching, the line-oriented object
//! artifact, and the stack-machine engine that interprets the artifact.
//! Parsing and file handling live outside the library.
//!
//! Floating-point values are carried everywhere as IEEE-754 bit patterns
//! (`u64`); the engine asks its caller to perform each float operation and
//! resumes with the result, so the engine's control logic is verified while
//! float arithmetic stays outside.

pub mod ast;
pub mod function_directory;
pub mod generator;
pub mod numtext;
pub mod objcode;
pub mod vm;
pub mod quadruples;

use vstd::prelude::*;

verus! {

} // verus!
