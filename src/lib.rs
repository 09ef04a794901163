//! Middle stage of a compiler for a small Pascal-like teaching language:
//! a semantic analyzer that checks a parsed program and folds its constants
//! into a symbol table, and a generator that lowers the program into
//! three-address instructions (quadruples).

pub mod ast;
pub mod text;
pub mod float;
pub mod symbol_table;
pub mod semantics;
pub mod semantic_analyzer;
pub mod quadruple;
pub mod position;
