//! A small embeddable business-rule engine.
//!
//! Rules are textual conditions ("when") and output assignments ("then")
//! written in a little expression language.  The engine compiles each
//! expression to a tree, matches many rules against one dynamic input
//! value, and applies the matching rules' assignments to a growing
//! output value.
pub mod assign;
pub mod calc;
pub mod calc_builder;
pub mod error;
pub mod eval;
pub mod lex;
pub mod lua_runtime_builder;
pub mod multiple_rush;
pub mod num;
pub mod parse;
pub mod rule_builder;
pub mod rush;
pub mod std_tool;
pub mod task_pool;
pub mod text;
pub mod value;
pub mod wasm_runtime_build;
