//! A compiler from LOLCODE markup to HTML.
//!
//! The source is scanned into tokens ([`lexer`]), the tokens are parsed into
//! one tree ([`syntax_analyzer`], after the rules in [`grammar`]), and one
//! walk over the tree resolves the block-scoped variables and emits the HTML
//! ([`semantic_analyzer`]). [`compiler`] runs the three in order and stops at
//! the first fault.

pub mod ast;
pub mod compiler;
pub mod error;
pub mod grammar;
pub mod lexer;
pub mod semantic_analyzer;
pub mod syntax_analyzer;
pub mod text;
pub mod token;
