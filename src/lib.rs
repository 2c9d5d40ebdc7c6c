//! Front end of a compiler for a small statically typed scripting language:
//! tokenizer, recursive-descent parser and semantic resolver.

pub mod token;
pub mod types;
pub mod symbol_table;
pub mod tokenizer;
pub mod expr;
pub mod stmt;
pub mod parser;
pub mod semantic_analysis;
pub mod compiler;
