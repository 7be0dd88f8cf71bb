//! A verified scanner and parser for a small SQL subset.
//!
//! The crate turns one UTF-8 text holding a `SELECT` query or a
//! `CREATE TABLE` definition into a typed abstract syntax tree
//! ([`statement`]), or reports the first syntax error. The scanner
//! ([`tokenizer`]) makes one left-to-right pass over the characters; the
//! parser ([`parser`]) is a precedence-climbing expression parser under a
//! recursive-descent statement parser. Every executable function is
//! proved equal to a mathematical description of the grammar. A parsed
//! statement can be rendered back to canonical text ([`render`]), and
//! re-parsing that text provably restores the statement ([`laws`]).

pub mod token;
pub mod tokenizer;
pub mod statement;
pub mod parser;
pub mod render;
pub mod laws;
