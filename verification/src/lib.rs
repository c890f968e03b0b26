//! Comix: a small statically typed scripting language with scoped variables,
//! control flow and recursive functions. Source text is read by a lexer and a
//! parser whose results are stated by the lexical and syntactic grammar, and
//! run by an interpreter whose every step is stated by a big-step semantics.
pub mod text;
pub mod lexer;
pub mod parser;
pub mod reader;
pub mod positions;
pub mod value;
pub mod environment;
pub mod ast;
pub mod semantics;
pub mod evaluator;
pub mod scoping;
pub mod budget;
pub mod rules;
pub mod meaning;
pub mod gui;
pub mod repl;
