//! A small compiler for a minimal imperative language: source text is split
//! into tokens, parsed by recursive descent into statements, and lowered to
//! textual assembly for a load/store register machine.

pub mod ast;
pub mod code_gen;
pub mod lexer;
pub mod parser;
pub mod laws;
pub mod parse_facts;
pub mod text;
