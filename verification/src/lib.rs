//! A compiler for a small subset of C that lowers a source string to x86-64
//! assembly text in GNU assembler syntax.
//!
//! The pipeline is: lexical analysis ([`lexer`]), parsing into an abstract
//! syntax tree ([`parser`]), lowering into three-address code ([`tacker`]),
//! lowering to an abstract assembly representation with a post-generation
//! fix-up pass ([`generator`]), and textual emission ([`emitter`]).
//! Each stage is verified against a mathematical model of its output.

pub mod asm_tree;
pub mod ast_tree;
pub mod diagnostics;
pub mod driver;
pub mod emitter;
pub mod generator;
pub mod lexer;
pub mod numerals;
pub mod parser;
pub mod printer;
pub mod tac_tree;
pub mod tacker;
pub mod tokens;
