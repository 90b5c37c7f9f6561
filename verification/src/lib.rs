//! A small ahead-of-time compiler for one function of a C-like language:
//! a tokenizer, a recursive-descent parser that builds the syntax tree and
//! the symbol table, and a one-pass generator of assembly text.
//!
//! The parser is specified by the grammar in [`parser::grammar`] and the
//! generator by the code in [`generator::code`]. What holds of all parses
//! is in [`parser::laws`], what holds of the labels of generated code in
//! [`generator::labels`]. That generated code computes what the source
//! means, on the model of the machine in [`machine`] and with the meaning
//! of the source in [`meaning`], is shown in [`agreement`].

pub mod agreement;
pub mod emitter;
pub mod generator;
pub mod lexer;
pub mod machine;
pub mod meaning;
pub mod parser;
