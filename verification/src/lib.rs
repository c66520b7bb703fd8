//! An interpreter for the Cambridge International AS & A Level pseudocode
//! language: its runtime values and types, the scoped environment that
//! stores variables, constants and open files, the operators of the
//! language, and a statement evaluator that talks to its embedding through
//! a replayable context.

pub mod value;
pub mod errortype;
pub mod text;
pub mod names;
pub mod host;
pub mod environment;
pub mod types;
pub mod laws;
pub mod display;
pub mod operators;
pub mod replay;
pub mod interpreter;
pub mod render;
