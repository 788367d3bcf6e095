//! Rewrite rules for Lua source trees, with their contracts proved.
//!
//! A tree (`nodes`) is rewritten by a bottom-up walk (`visit`) whose hooks each
//! rule supplies: continue elimination, redeclared-key elimination (on top of a
//! sound constant evaluator), generalized-iteration elimination, and a few
//! injection rules. Every rule is configured from a property list that is
//! checked whole before anything changes (`rules`).
use vstd::prelude::*;

pub mod continue_laws;
pub mod continue_semantics;
pub mod convert_bit32;
pub mod evaluator;
pub mod generator_utils;
pub mod hashing;
pub mod inject_libraries;
pub mod inject_type_checker;
pub mod inject_typechecker;
pub mod names;
pub mod nodes;
pub mod remove_continue;
pub mod remove_duplicated_keys;
pub mod remove_generalized_iteration;
pub mod rules;
pub mod runtime_variable;
pub mod table_laws;
pub mod text;
pub mod visit;

