//! Core of an ahead-of-time compiler for a small expression-oriented
//! functional language: binding resolution, lowering to a block-argument
//! SSA form with lambda-lifting, and x86-64 code generation in NASM syntax.

/* ----------------------------- Compiler passes ---------------------------- */

pub mod txt;
pub mod frontend;
pub mod middle_end;
pub mod ast;
pub mod assembly;
pub mod ssa;
pub mod backend;
pub mod compile;
pub mod interp;

/* -------------------------------- Utilities ------------------------------- */
pub mod identifiers;
pub mod immap;
pub mod span;
pub mod digits;
