//! A tree-walking interpreter for a small dynamically typed scripting language.
//!
//! Source text is cut into tokens by the [`scanner`], the [`parser`] turns the
//! tokens into statements, and the [`interpreter`] executes them against a stack
//! of scopes and a table of functions. Doubles are carried as bit patterns; the
//! arithmetic on them is done by a [`floats::FloatUnit`] that the caller
//! supplies, and every contract says what is returned for whatever the unit
//! answers.
#![allow(non_camel_case_types)]

pub mod text;
pub mod floats;
pub mod ast;
pub mod stmt;
pub mod scanner;
pub mod parser;
pub mod environment;
pub mod interpreter;
