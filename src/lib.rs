//! Front end of a small scripting language: a tokenizer, a
//! recursive-descent parser producing a syntax tree, and the line protocol
//! of its interactive prompt. Each stage is proved against a specification
//! written as spec functions: `lexer::tokenize_spec` for the tokenizer,
//! the productions of `grammar` for the parser, and `repl::prepared` and
//! `repl::next_step` for the prompt. `unparse` proves that what the parser
//! reads, written back out, gives the token kinds it was read from.
pub mod ast;
pub mod grammar;
pub mod lexer;
pub mod parser;
pub mod repl;
pub mod unparse;
