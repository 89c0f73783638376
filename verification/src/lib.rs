//! The front end of a small expression-oriented scripting language: a
//! tokenizer from source text to tokens, and a recursive-descent parser from
//! tokens to a syntax tree.
//!
//! What the tokenizer gives is stated by [`lexical::lex`], what the parser
//! gives by [`grammar::parse`]; [`lexer::tokenize`] and [`parser::Parser`]
//! are proved to compute them.

pub mod ast_types;
pub mod chars;
pub mod errors;
pub mod grammar;
pub mod grammar_laws;
pub mod lexer;
pub mod lexer_types;
pub mod lexical;
pub mod lexical_laws;
pub mod parser;
pub mod precedence;
pub mod render;
pub mod render_laws;
pub mod text;
