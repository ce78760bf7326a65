//! Compiles a grammar, given as a tree of named rules, into the tables of a
//! table-driven parser: a lexer automaton for the tokens and a shift-reduce
//! table for the rules, with every conflict resolved by precedence,
//! associativity or an explicit declaration.
pub mod build_tables;
pub mod build_wasm;
pub mod cli;
pub mod error;
pub mod generate;
pub mod grammar_file;
pub mod grammars;
pub mod nfa;
pub mod node_types;
pub mod pattern;
pub mod prepare_grammar;
pub mod render;
pub mod rules;
pub mod seq_util;
pub mod tables;
pub mod text;
