//! Member and type binding for an EmmyLua-style code analysis database.
//!
//! The library keeps an index of declarations, members and bound types
//! (`db`), binds inferred or annotated types to declarations and members
//! (`common`), moves members that were recorded under a global path onto
//! the owner that the global's type resolves to (`migrate`), and offers the
//! small pure helpers of function-generic instantiation (`func_generic`).
pub mod ids;
pub mod vec_map;
pub mod types;
pub mod db;
pub mod common;
pub mod migrate;
pub mod laws;
pub mod syntax;
pub mod func_generic;
pub mod lexer;
pub mod parser;
pub mod analysis;
pub mod workspace;
pub mod tpl_set;
pub mod substitutor;
pub mod tpl_pattern;
pub mod generic_usage;
pub mod grammar;
