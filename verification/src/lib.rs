//! A verified core of a compiler for a small statically-typed language:
//! qualified names, the type and data vocabulary of its intermediate
//! representations, scope environments, and the pattern-match compiler that
//! turns an ordered list of match branches into a total decision tree with
//! first-match-wins winner resolution.
#![allow(non_snake_case)]

pub mod environment;
pub mod ir_data;
pub mod ir_type;
pub mod lowering;
pub mod minic_type;
pub mod mir_type;
pub mod ownership;
pub mod laws;
pub mod matchcompiler;
pub mod path;
pub mod pattern;
pub mod qualifiedname;
