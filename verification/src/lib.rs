//! The normalizer of a small configuration language of the Dhall family: expressions,
//! the scopes that their names live in, the rules that reduce them, and the lexer and
//! printer of their source text.

pub mod a_subst;
pub mod ast;
pub mod binders;
pub mod context;
pub mod depth;
pub mod error;
pub mod eval;
pub mod forget;
pub mod idempotence;
pub mod is_list;
pub mod lex;
pub mod normal;
pub mod resolve;
pub mod results;
pub mod semantics;
pub mod show;
pub mod sym_table;
pub mod text;
pub mod token;
